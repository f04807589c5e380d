use vstd::prelude::*;
use vstd::string::{StrSliceExecFns, StringExecFns};

verus! {

/// The text every chunk id starts with.
pub open spec fn chunk_prefix() -> Seq<char> {
    seq!['c', 'h', 'u', 'n', 'k', '_']
}

/// The most decimal digits an ordinal may have.
pub const MAX_ORDINAL_DIGITS: usize = 19;

pub open spec fn is_digit(c: char) -> bool {
    '0' <= c && c <= '9'
}

/// The decimal digit for `d`, below ten.
pub open spec fn digit_char(d: nat) -> char {
    if d == 0 { '0' }
    else if d == 1 { '1' }
    else if d == 2 { '2' }
    else if d == 3 { '3' }
    else if d == 4 { '4' }
    else if d == 5 { '5' }
    else if d == 6 { '6' }
    else if d == 7 { '7' }
    else if d == 8 { '8' }
    else { '9' }
}

/// The decimal text of `n`, without leading zeros.
pub open spec fn decimal(n: nat) -> Seq<char>
    decreases n,
{
    if n < 10 {
        seq![digit_char(n)]
    } else {
        decimal(n / 10).push(digit_char(n % 10))
    }
}

/// The number a run of decimal digits stands for.
pub open spec fn digits_value(t: Seq<char>) -> nat
    decreases t.len(),
{
    if t.len() == 0 {
        0
    } else {
        digits_value(t.drop_last()) * 10 + (t.last() as nat - '0' as nat) as nat
    }
}

pub open spec fn pow10(k: nat) -> nat
    decreases k,
{
    if k == 0 { 1 } else { 10 * pow10((k - 1) as nat) }
}

/// The id of chunk number `n`: `chunk_` and then `n` in decimal.
pub open spec fn chunk_id_text(n: nat) -> Seq<char> {
    chunk_prefix() + decimal(n)
}

/// The ordinal a chunk id encodes: `chunk_` followed by one to nineteen
/// decimal digits. Any other text encodes none.
pub open spec fn chunk_ordinal(s: Seq<char>) -> Option<nat> {
    if 6 < s.len() && s.len() <= 6 + MAX_ORDINAL_DIGITS && s.subrange(0, 6) == chunk_prefix()
        && (forall|i: int| 6 <= i < s.len() ==> is_digit(#[trigger] s[i])) {
        Some(digits_value(s.subrange(6, s.len() as int)))
    } else {
        None
    }
}

proof fn lemma_digits_value_bound(t: Seq<char>)
    requires
        forall|i: int| 0 <= i < t.len() ==> is_digit(#[trigger] t[i]),
    ensures
        digits_value(t) < pow10(t.len()),
    decreases t.len(),
{
    if t.len() > 0 {
        let u = t.drop_last();
        assert forall|i: int| 0 <= i < u.len() implies is_digit(#[trigger] u[i]) by {
            assert(u[i] == t[i]);
        }
        lemma_digits_value_bound(u);
        assert(is_digit(t[t.len() - 1]));
        let a = digits_value(u);
        let d = (t.last() as nat - '0' as nat) as nat;
        let p = pow10(u.len());
        assert(d < 10);
        assert(digits_value(t) == a * 10 + d);
        assert(pow10(t.len()) == 10 * p);
        assert(a * 10 + d < 10 * p) by (nonlinear_arith)
            requires
                a < p,
                d < 10,
        ;
    }
}

proof fn lemma_digit_char_value(k: nat)
    requires
        k < 10,
    ensures
        is_digit(digit_char(k)),
        digit_char(k) as nat == '0' as nat + k,
{
}

proof fn lemma_decimal_digits(n: nat)
    ensures
        decimal(n).len() >= 1,
        forall|i: int| 0 <= i < decimal(n).len() ==> is_digit(#[trigger] decimal(n)[i]),
        digits_value(decimal(n)) == n,
        n < 10 ==> decimal(n).len() == 1,
        n >= 10 ==> n >= pow10((decimal(n).len() - 1) as nat),
    decreases n,
{
    let d = decimal(n);
    if n < 10 {
        lemma_digit_char_value(n);
        assert(d.drop_last() =~= Seq::<char>::empty());
        assert(digits_value(d.drop_last()) == 0);
        assert(d.last() == digit_char(n));
        assert(digits_value(d) == digits_value(d.drop_last()) * 10 + (d.last() as nat - '0' as nat) as nat);
    } else {
        lemma_decimal_digits(n / 10);
        lemma_digit_char_value(n % 10);
        let u = decimal(n / 10);
        assert(d.drop_last() =~= u);
        assert(d.last() == digit_char(n % 10));
        assert(digits_value(d) == digits_value(u) * 10 + (n % 10));
        assert forall|i: int| 0 <= i < d.len() implies is_digit(#[trigger] d[i]) by {
            if i < u.len() {
                assert(d[i] == u[i]);
            }
        }
        assert(n == (n / 10) * 10 + n % 10);
        let q = n / 10;
        let pu = pow10((u.len() - 1) as nat);
        assert(q >= pu) by {
            if q < 10 {
                assert(u.len() == 1);
                assert(pow10(0) == 1);
            }
        }
        assert(pow10((d.len() - 1) as nat) == 10 * pu);
        assert(n >= 10 * pu) by (nonlinear_arith)
            requires
                q >= pu,
                n == q * 10 + n % 10,
                n % 10 >= 0,
        ;
    }
}

/// Chunk ids name their ordinal: the id of chunk `n` encodes `n` again, for
/// every ordinal of at most nineteen digits.
pub proof fn lemma_chunk_id_round_trip(n: nat)
    requires
        n < 10_000_000_000_000_000_000nat,
    ensures
        chunk_ordinal(chunk_id_text(n)) == Some(n),
{
    lemma_decimal_digits(n);
    let d = decimal(n);
    let s = chunk_id_text(n);
    if d.len() > MAX_ORDINAL_DIGITS {
        lemma_pow10_monotone(19, (d.len() - 1) as nat);
        assert(pow10(19) == 10_000_000_000_000_000_000nat) by {
            reveal_with_fuel(pow10, 20);
        }
        assert(false);
    }
    assert(s.subrange(0, 6) =~= chunk_prefix());
    assert(s.subrange(6, s.len() as int) =~= d);
    assert forall|i: int| 6 <= i < s.len() implies is_digit(#[trigger] s[i]) by {
        assert(s[i] == d[i - 6]);
    }
}

proof fn lemma_pow10_monotone(a: nat, b: nat)
    requires
        a <= b,
    ensures
        pow10(a) <= pow10(b),
    decreases b - a,
{
    if a < b {
        lemma_pow10_monotone(a, (b - 1) as nat);
    }
}


fn digit_text(d: u64) -> (r: &'static str)
    requires
        d < 10,
    ensures
        r@ == seq![digit_char(d as nat)],
{
    if d == 0 {
        proof { reveal_strlit("0"); }
        "0"
    } else if d == 1 {
        proof { reveal_strlit("1"); }
        "1"
    } else if d == 2 {
        proof { reveal_strlit("2"); }
        "2"
    } else if d == 3 {
        proof { reveal_strlit("3"); }
        "3"
    } else if d == 4 {
        proof { reveal_strlit("4"); }
        "4"
    } else if d == 5 {
        proof { reveal_strlit("5"); }
        "5"
    } else if d == 6 {
        proof { reveal_strlit("6"); }
        "6"
    } else if d == 7 {
        proof { reveal_strlit("7"); }
        "7"
    } else if d == 8 {
        proof { reveal_strlit("8"); }
        "8"
    } else {
        proof { reveal_strlit("9"); }
        "9"
    }
}

fn append_decimal(s: &mut String, n: u64)
    ensures
        final(s)@ == old(s)@ + decimal(n as nat),
    decreases n,
{
    if n >= 10 {
        append_decimal(s, n / 10);
    }
    s.append(digit_text(n % 10));
    proof {
        if n >= 10 {
            assert(decimal(n as nat) == decimal((n / 10) as nat).push(digit_char((n % 10) as nat)));
            assert(final(s)@ =~= old(s)@ + decimal(n as nat));
        } else {
            assert(final(s)@ =~= old(s)@ + decimal(n as nat));
        }
    }
}

/// The id of chunk number `n`.
pub fn chunk_id(n: u64) -> (r: String)
    ensures
        r@ == chunk_id_text(n as nat),
{
    let mut s = "chunk_".to_string();
    proof {
        reveal_strlit("chunk_");
        assert(s@ =~= chunk_prefix());
    }
    append_decimal(&mut s, n);
    s
}

/// The ordinal that the chunk id `id` encodes, if it is one.
pub fn parse_chunk_ordinal(id: &str) -> (r: Option<u64>)
    ensures
        r is Some <==> chunk_ordinal(id@) is Some,
        r is Some ==> r->0 as nat == chunk_ordinal(id@)->0,
{
    let len = id.unicode_len();
    if len <= 6 || len > 6 + MAX_ORDINAL_DIGITS {
        return None;
    }
    if id.get_char(0) != 'c' || id.get_char(1) != 'h' || id.get_char(2) != 'u' || id.get_char(3)
        != 'n' || id.get_char(4) != 'k' || id.get_char(5) != '_' {
        proof {
            if id@.subrange(0, 6) == chunk_prefix() {
                assert(id@[0] == id@.subrange(0, 6)[0]);
                assert(id@[1] == id@.subrange(0, 6)[1]);
                assert(id@[2] == id@.subrange(0, 6)[2]);
                assert(id@[3] == id@.subrange(0, 6)[3]);
                assert(id@[4] == id@.subrange(0, 6)[4]);
                assert(id@[5] == id@.subrange(0, 6)[5]);
            }
        }
        return None;
    }
    assert(id@.subrange(0, 6) =~= chunk_prefix());
    proof {
        lemma_pow10_monotone(0, 18);
        assert(pow10(18) == 1_000_000_000_000_000_000nat) by {
            reveal_with_fuel(pow10, 19);
        }
        assert(id@.subrange(6, 6) =~= Seq::<char>::empty());
    }
    let mut v: u64 = 0;
    let mut i: usize = 6;
    while i < len
        invariant
            6 <= i <= len,
            len == id@.len(),
            len <= 6 + MAX_ORDINAL_DIGITS,
            id@.subrange(0, 6) == chunk_prefix(),
            forall|j: int| 6 <= j < i ==> is_digit(#[trigger] id@[j]),
            v == digits_value(id@.subrange(6, i as int)),
            v < pow10((i - 6) as nat),
            pow10(18) == 1_000_000_000_000_000_000nat,
        decreases len - i,
    {
        let c = id.get_char(i);
        if !('0' <= c && c <= '9') {
            return None;
        }
        let d = (c as u32 - '0' as u32) as u64;
        proof {
            lemma_pow10_monotone((i - 6) as nat, 18);
            let t = id@.subrange(6, i + 1);
            assert(t.drop_last() =~= id@.subrange(6, i as int));
            assert(t.last() == c);
        }
        v = v * 10 + d;
        i = i + 1;
    }
    proof {
        lemma_digits_value_bound(id@.subrange(6, len as int));
    }
    Some(v)
}

} // verus!
