//! Small verified text helpers: decimal rendering and parsing, string
//! equality and lexicographic order over character sequences.

use vstd::prelude::*;

verus! {

/// The decimal digit character for a value below ten.
pub open spec fn digit_char(d: nat) -> char {
    if d == 0 {
        '0'
    } else if d == 1 {
        '1'
    } else if d == 2 {
        '2'
    } else if d == 3 {
        '3'
    } else if d == 4 {
        '4'
    } else if d == 5 {
        '5'
    } else if d == 6 {
        '6'
    } else if d == 7 {
        '7'
    } else if d == 8 {
        '8'
    } else {
        '9'
    }
}

/// The value of a decimal digit character, or `None` for any other char.
pub open spec fn digit_of(c: char) -> Option<nat> {
    if c == '0' {
        Some(0nat)
    } else if c == '1' {
        Some(1nat)
    } else if c == '2' {
        Some(2nat)
    } else if c == '3' {
        Some(3nat)
    } else if c == '4' {
        Some(4nat)
    } else if c == '5' {
        Some(5nat)
    } else if c == '6' {
        Some(6nat)
    } else if c == '7' {
        Some(7nat)
    } else if c == '8' {
        Some(8nat)
    } else if c == '9' {
        Some(9nat)
    } else {
        None
    }
}

/// The usual decimal rendering of `n`, without sign or leading zeros
/// (a single `'0'` for zero).
pub open spec fn dec_rep(n: nat) -> Seq<char>
    decreases n,
{
    if n < 10 {
        seq![digit_char(n)]
    } else {
        dec_rep(n / 10) + seq![digit_char(n % 10)]
    }
}

/// The number a sequence of decimal digit characters denotes, or `None`
/// if the sequence is empty or holds a non-digit.
pub open spec fn dec_value(s: Seq<char>) -> Option<nat>
    decreases s.len(),
{
    if s.len() == 0 {
        None
    } else if s.len() == 1 {
        digit_of(s[0])
    } else {
        match (dec_value(s.drop_last()), digit_of(s.last())) {
            (Some(v), Some(d)) => Some(v * 10 + d),
            _ => None,
        }
    }
}

fn append_digit(d: u64, out: &mut String)
    requires
        d < 10,
    ensures
        final(out)@ == old(out)@ + seq![digit_char(d as nat)],
{
    proof {
        reveal_strlit("0");
        reveal_strlit("1");
        reveal_strlit("2");
        reveal_strlit("3");
        reveal_strlit("4");
        reveal_strlit("5");
        reveal_strlit("6");
        reveal_strlit("7");
        reveal_strlit("8");
        reveal_strlit("9");
    }
    let s: &str = match d {
        0 => "0",
        1 => "1",
        2 => "2",
        3 => "3",
        4 => "4",
        5 => "5",
        6 => "6",
        7 => "7",
        8 => "8",
        _ => "9",
    };
    assert(s@ =~= seq![digit_char(d as nat)]);
    out.append(s);
}

fn push_dec(n: u64, out: &mut String)
    ensures
        final(out)@ == old(out)@ + dec_rep(n as nat),
    decreases n,
{
    if n >= 10 {
        push_dec(n / 10, out);
        append_digit(n % 10, out);
        assert(final(out)@ =~= old(out)@ + dec_rep(n as nat));
    } else {
        append_digit(n, out);
    }
}

/// Renders `n` in decimal, matching `dec_rep`.
pub fn u64_to_string(n: u64) -> (r: String)
    ensures
        r@ == dec_rep(n as nat),
{
    let mut out = String::new();
    push_dec(n, &mut out);
    assert(out@ =~= dec_rep(n as nat));
    out
}

/// Strict lexicographic order on character sequences, by code point.
pub open spec fn lex_lt(a: Seq<char>, b: Seq<char>) -> bool
    decreases a.len(),
{
    if b.len() == 0 {
        false
    } else if a.len() == 0 {
        true
    } else if (a[0] as u32) < (b[0] as u32) {
        true
    } else if a[0] == b[0] {
        lex_lt(a.drop_first(), b.drop_first())
    } else {
        false
    }
}

/// Lexicographic order, weak form.
pub open spec fn lex_le(a: Seq<char>, b: Seq<char>) -> bool {
    lex_lt(a, b) || a == b
}

proof fn lemma_char_code_distinct(c1: char, c2: char)
    requires
        c1 != c2,
    ensures
        c1 as u32 != c2 as u32,
{
}

proof fn lemma_lex_lt_skip(a: Seq<char>, b: Seq<char>, i: int)
    requires
        0 <= i <= a.len(),
        i <= b.len(),
        forall|j: int| 0 <= j < i ==> a[j] == b[j],
    ensures
        lex_lt(a, b) == lex_lt(a.skip(i), b.skip(i)),
    decreases i,
{
    if i > 0 {
        lemma_lex_lt_skip(a.drop_first(), b.drop_first(), i - 1);
        assert(a.drop_first().skip(i - 1) =~= a.skip(i));
        assert(b.drop_first().skip(i - 1) =~= b.skip(i));
    } else {
        assert(a.skip(0) =~= a);
        assert(b.skip(0) =~= b);
    }
}

/// Total: of two sequences, one is lexicographically at most the other.
pub proof fn lemma_lex_total(a: Seq<char>, b: Seq<char>)
    ensures
        lex_le(a, b) || lex_le(b, a),
    decreases a.len(),
{
    if a.len() == 0 && b.len() == 0 {
        assert(a =~= b);
        assert(lex_le(a, b));
    } else if a.len() == 0 || b.len() == 0 {
        assert(lex_lt(a, b) || lex_lt(b, a));
    } else if a[0] == b[0] {
        lemma_lex_total(a.drop_first(), b.drop_first());
        if lex_lt(a.drop_first(), b.drop_first()) {
            assert(lex_lt(a, b));
        } else if lex_lt(b.drop_first(), a.drop_first()) {
            assert(lex_lt(b, a));
        } else {
            assert(a.drop_first() == b.drop_first());
            assert forall|i: int| 0 <= i < a.len() implies a[i] == b[i] by {
                if i >= 1 {
                    assert(a[i] == a.drop_first()[i - 1]);
                    assert(b[i] == b.drop_first()[i - 1]);
                }
            }
            assert(a =~= b);
        }
    } else {
        lemma_char_code_distinct(a[0], b[0]);
        if (a[0] as u32) < (b[0] as u32) {
            assert(lex_lt(a, b));
        } else {
            assert(lex_lt(b, a));
        }
    }
}

/// Transitive: lexicographic order composes.
pub proof fn lemma_lex_le_trans(a: Seq<char>, b: Seq<char>, c: Seq<char>)
    requires
        lex_le(a, b),
        lex_le(b, c),
    ensures
        lex_le(a, c),
    decreases a.len(),
{
    if a == b || b == c {
    } else {
        if a.len() == 0 {
            assert(lex_lt(a, c));
        } else {
            assert(b.len() > 0);
            assert(c.len() > 0);
            if (a[0] as u32) < (b[0] as u32) {
                if (b[0] as u32) < (c[0] as u32) {
                    assert(lex_lt(a, c));
                } else {
                    assert(b[0] == c[0]);
                    assert(lex_lt(a, c));
                }
            } else {
                assert(a[0] == b[0]);
                if (b[0] as u32) < (c[0] as u32) {
                    assert(lex_lt(a, c));
                } else {
                    assert(b[0] == c[0]);
                    lemma_lex_le_trans(a.drop_first(), b.drop_first(), c.drop_first());
                    if a.drop_first() == c.drop_first() {
                        assert forall|i: int| 0 <= i < a.len() implies a[i] == c[i] by {
                            if i >= 1 {
                                assert(a[i] == a.drop_first()[i - 1]);
                                assert(c[i] == c.drop_first()[i - 1]);
                            }
                        }
                        assert(a =~= c);
                    } else {
                        assert(lex_lt(a.drop_first(), c.drop_first()));
                        assert(lex_lt(a, c));
                    }
                }
            }
        }
    }
}

/// A common prefix does not affect the order of what follows it.
pub proof fn lemma_lex_lt_common_prefix(p: Seq<char>, a: Seq<char>, b: Seq<char>)
    ensures
        lex_lt(p + a, p + b) == lex_lt(a, b),
    decreases p.len(),
{
    if p.len() == 0 {
        assert(p + a =~= a);
        assert(p + b =~= b);
    } else {
        assert((p + a)[0] == p[0]);
        assert((p + b)[0] == p[0]);
        assert((p + a).drop_first() =~= p.drop_first() + a);
        assert((p + b).drop_first() =~= p.drop_first() + b);
        lemma_lex_lt_common_prefix(p.drop_first(), a, b);
    }
}

/// Two distinct sequences of one length order as they do with any
/// suffixes appended: the deciding position lies before either
/// suffix.
pub proof fn lemma_lex_lt_eqlen_suffix(a: Seq<char>, b: Seq<char>, t: Seq<char>, u: Seq<char>)
    requires
        a.len() == b.len(),
        a != b,
    ensures
        lex_lt(a + t, b + u) == lex_lt(a, b),
    decreases a.len(),
{
    if a.len() == 0 {
        assert(a =~= b);
    } else if a[0] == b[0] {
        assert((a + t)[0] == a[0]);
        assert((b + u)[0] == b[0]);
        assert((a + t).drop_first() =~= a.drop_first() + t);
        assert((b + u).drop_first() =~= b.drop_first() + u);
        if a.drop_first() == b.drop_first() {
            assert forall|i: int| 0 <= i < a.len() implies a[i] == b[i] by {
                if i >= 1 {
                    assert(a[i] == a.drop_first()[i - 1]);
                    assert(b[i] == b.drop_first()[i - 1]);
                }
            }
            assert(a =~= b);
        }
        lemma_lex_lt_eqlen_suffix(a.drop_first(), b.drop_first(), t, u);
    } else {
        lemma_char_code_distinct(a[0], b[0]);
        assert((a + t)[0] == a[0]);
        assert((b + u)[0] == b[0]);
        assert((a + t).len() > 0);
        assert((b + u).len() > 0);
    }
}

/// Asymmetric: no two sequences are each strictly below the other.
pub proof fn lemma_lex_asym(a: Seq<char>, b: Seq<char>)
    requires
        lex_lt(a, b),
    ensures
        !lex_lt(b, a),
    decreases a.len(),
{
    if a.len() > 0 && b.len() > 0 && a[0] == b[0] {
        lemma_lex_asym(a.drop_first(), b.drop_first());
    }
}

/// Antisymmetric: mutual `lex_le` means equality.
pub proof fn lemma_lex_antisym(a: Seq<char>, b: Seq<char>)
    requires
        lex_le(a, b),
        lex_le(b, a),
    ensures
        a == b,
{
    if a != b {
        lemma_lex_asym(a, b);
    }
}

/// Decides `lex_lt` on two string slices.
pub fn str_lex_lt(a: &str, b: &str) -> (r: bool)
    ensures
        r == lex_lt(a@, b@),
{
    let n = a.unicode_len();
    let m = b.unicode_len();
    let mut i: usize = 0;
    while i < n && i < m
        invariant
            i <= n,
            i <= m,
            n == a@.len(),
            m == b@.len(),
            forall|j: int| 0 <= j < i ==> a@[j] == b@[j],
        decreases n - i,
    {
        let ca = a.get_char(i);
        let cb = b.get_char(i);
        if (ca as u32) < (cb as u32) {
            proof {
                lemma_lex_lt_skip(a@, b@, i as int);
            }
            return true;
        }
        if (ca as u32) > (cb as u32) {
            proof {
                lemma_lex_lt_skip(a@, b@, i as int);
            }
            return false;
        }
        assert(ca == cb);
        i += 1;
    }
    proof {
        lemma_lex_lt_skip(a@, b@, i as int);
    }
    n < m
}

proof fn lemma_dec_value_all_digits(s: Seq<char>)
    ensures
        dec_value(s) is Some ==> forall|j: int| 0 <= j < s.len() ==> digit_of(s[j]) is Some,
    decreases s.len(),
{
    if s.len() > 1 {
        lemma_dec_value_all_digits(s.drop_last());
        if dec_value(s) is Some {
            assert forall|j: int| 0 <= j < s.len() implies digit_of(s[j]) is Some by {
                if j < s.len() - 1 {
                    assert(s[j] == s.drop_last()[j]);
                } else {
                    assert(s[j] == s.last());
                }
            }
        }
    }
}

proof fn lemma_dec_value_prefix(s: Seq<char>, k: int)
    requires
        0 < k <= s.len(),
        dec_value(s) is Some,
    ensures
        dec_value(s.subrange(0, k)) is Some,
        dec_value(s.subrange(0, k))->0 <= dec_value(s)->0,
    decreases s.len() - k,
{
    if k == s.len() {
        assert(s.subrange(0, k) =~= s);
    } else {
        assert(s.drop_last().subrange(0, k) =~= s.subrange(0, k));
        lemma_dec_value_prefix(s.drop_last(), k);
    }
}

/// Parses an unsigned decimal number, accepting one leading `'+'`.
/// The string the caller may pass is pinned by `parsed_id`.
pub open spec fn parsed_id(s: Seq<char>) -> Option<nat> {
    if s.len() >= 1 && s[0] == '+' {
        dec_value(s.skip(1))
    } else {
        dec_value(s)
    }
}

fn char_digit(c: char) -> (r: Option<usize>)
    ensures
        r matches Some(d) ==> digit_of(c) == Some(d as nat),
        r is None ==> digit_of(c) is None,
{
    match c {
        '0' => Some(0),
        '1' => Some(1),
        '2' => Some(2),
        '3' => Some(3),
        '4' => Some(4),
        '5' => Some(5),
        '6' => Some(6),
        '7' => Some(7),
        '8' => Some(8),
        '9' => Some(9),
        _ => None,
    }
}

/// Parses `s` as `str::parse::<usize>` does for plain decimal input:
/// optional `'+'`, then decimal digits, rejecting overflow.
pub fn parse_usize(s: &str) -> (r: Option<usize>)
    ensures
        r matches Some(v) ==> parsed_id(s@) == Some(v as nat),
        r is None ==> (parsed_id(s@) is None || parsed_id(s@)->0 > usize::MAX),
{
    let n = s.unicode_len();
    let mut start: usize = 0;
    if n >= 1 && s.get_char(0) as u32 == '+' as u32 {
        start = 1;
    }
    if start == n {
        return None;
    }
    let ghost digits: Seq<char> = s@.skip(start as int);
    proof {
        if start == 0 {
            assert(s@.skip(0) =~= s@);
        }
    }
    assert(parsed_id(s@) == dec_value(digits));
    let mut acc: usize = 0;
    let mut pos: usize = start;
    while pos < n
        invariant
            start <= pos <= n,
            n == s@.len(),
            start < n,
            digits == s@.skip(start as int),
            parsed_id(s@) == dec_value(digits),
            pos > start ==> Some(acc as nat) == dec_value(digits.subrange(0, pos - start)),
            pos == start ==> acc == 0,
        decreases n - pos,
    {
        let c = s.get_char(pos);
        assert(digits[pos - start] == s@[pos as int]);
        let d = match char_digit(c) {
            Some(d) => d,
            None => {
                proof {
                    lemma_dec_value_all_digits(digits);
                }
                return None;
            },
        };
        let ghost p: int = pos - start;
        proof {
            assert(digits.subrange(0, p + 1).drop_last() =~= digits.subrange(0, p));
            assert(digits.subrange(0, p + 1).last() == digits[p]);
        }
        if acc > (usize::MAX - d) / 10 {
            proof {
                let q = (usize::MAX - d) / 10;
                assert(q * 10 + d < acc * 10 + d) by (nonlinear_arith)
                    requires
                        acc > q,
                        d < 10,
                ;
                assert(usize::MAX - d < (q + 1) * 10);
                assert(dec_value(digits.subrange(0, p + 1)) == Some((acc * 10 + d) as nat));
                if dec_value(digits) is Some {
                    lemma_dec_value_prefix(digits, p + 1);
                }
            }
            return None;
        }
        proof {
            let q = (usize::MAX - d) / 10;
            assert(acc * 10 <= q * 10) by (nonlinear_arith)
                requires
                    acc <= q,
            ;
            assert(q * 10 <= usize::MAX - d);
        }
        acc = acc * 10 + d;
        pos += 1;
    }
    proof {
        assert(digits.subrange(0, n - start) =~= digits);
    }
    Some(acc)
}

/// Character-for-character equality of two string slices.
pub fn str_eq(a: &str, b: &str) -> (r: bool)
    ensures
        r == (a@ == b@),
{
    let n = a.unicode_len();
    let m = b.unicode_len();
    if n != m {
        return false;
    }
    let mut i: usize = 0;
    while i < n
        invariant
            i <= n,
            n == a@.len(),
            n == b@.len(),
            forall|j: int| 0 <= j < i ==> a@[j] == b@[j],
        decreases n - i,
    {
        if a.get_char(i) as u32 != b.get_char(i) as u32 {
            return false;
        }
        i += 1;
    }
    assert(a@ =~= b@);
    true
}

} // verus!

