//! Decimal rendering and parsing of the unsigned integers that appear in
//! the state document and on assembled command lines.

use vstd::prelude::*;

verus! {

pub open spec fn is_digit(c: char) -> bool {
    c == '0' || c == '1' || c == '2' || c == '3' || c == '4' || c == '5' || c == '6' || c == '7'
        || c == '8' || c == '9'
}

pub open spec fn digit_char(d: nat) -> char {
    if d == 0 {
        '0'
    } else if d == 1 {
        '1'
    } else if d == 2 {
        '2'
    } else if d == 3 {
        '3'
    } else if d == 4 {
        '4'
    } else if d == 5 {
        '5'
    } else if d == 6 {
        '6'
    } else if d == 7 {
        '7'
    } else if d == 8 {
        '8'
    } else {
        '9'
    }
}

pub open spec fn digit_val(c: char) -> nat {
    if c == '0' {
        0
    } else if c == '1' {
        1
    } else if c == '2' {
        2
    } else if c == '3' {
        3
    } else if c == '4' {
        4
    } else if c == '5' {
        5
    } else if c == '6' {
        6
    } else if c == '7' {
        7
    } else if c == '8' {
        8
    } else {
        9
    }
}

/// The canonical decimal representation of `n`: most significant digit
/// first, no leading zeros (`0` itself is rendered as one digit).
pub open spec fn dec_rep(n: nat) -> Seq<char>
    decreases n,
{
    if n < 10 {
        seq![digit_char(n)]
    } else {
        dec_rep(n / 10).push(digit_char(n % 10))
    }
}

/// Greedy decimal parse from the front of `s`, folding digits onto `acc`;
/// returns the folded value and how many characters were consumed.
pub open spec fn parse_dec(s: Seq<char>, acc: nat) -> (nat, int)
    decreases s.len(),
{
    if s.len() == 0 || !is_digit(s[0]) {
        (acc, 0)
    } else {
        let rec = parse_dec(s.drop_first(), acc * 10 + digit_val(s[0]));
        (rec.0, rec.1 + 1)
    }
}

pub proof fn lemma_dec_rep_digits(n: nat)
    ensures
        dec_rep(n).len() >= 1,
        forall|i: int| 0 <= i < dec_rep(n).len() ==> is_digit(#[trigger] dec_rep(n)[i]),
    decreases n,
{
    if n >= 10 {
        lemma_dec_rep_digits(n / 10);
    }
}

/// Folding is monotone in the accumulator: parsing can only grow it.
pub proof fn lemma_parse_dec_lower(s: Seq<char>, acc: nat)
    ensures
        parse_dec(s, acc).0 >= acc,
        parse_dec(s, acc).1 >= 0,
    decreases s.len(),
{
    if s.len() != 0 && is_digit(s[0]) {
        lemma_parse_dec_lower(s.drop_first(), acc * 10 + digit_val(s[0]));
    }
}

/// A parse never consumes more than the whole input.
pub proof fn lemma_parse_dec_len(s: Seq<char>, acc: nat)
    ensures
        0 <= parse_dec(s, acc).1 <= s.len(),
    decreases s.len(),
{
    if s.len() != 0 && is_digit(s[0]) {
        lemma_parse_dec_len(s.drop_first(), acc * 10 + digit_val(s[0]));
    }
}

/// Parsing a run of digits followed by a non-digit consumes exactly the run.
pub proof fn lemma_parse_dec_append(ds: Seq<char>, rest: Seq<char>, acc: nat)
    requires
        forall|i: int| 0 <= i < ds.len() ==> is_digit(#[trigger] ds[i]),
        rest.len() > 0 ==> !is_digit(rest[0]),
    ensures
        parse_dec(ds + rest, acc) == (parse_dec(ds, acc).0, ds.len() as int),
    decreases ds.len(),
{
    if ds.len() == 0 {
        assert(ds + rest =~= rest);
    } else {
        assert((ds + rest)[0] == ds[0]);
        assert((ds + rest).drop_first() =~= ds.drop_first() + rest);
        lemma_parse_dec_append(ds.drop_first(), rest, acc * 10 + digit_val(ds[0]));
    }
}

/// Folding a sequence that ends in one more digit multiplies the fold of
/// the prefix by ten and adds that digit.
pub proof fn lemma_parse_dec_push(ds: Seq<char>, c: char, acc: nat)
    requires
        forall|i: int| 0 <= i < ds.len() ==> is_digit(#[trigger] ds[i]),
        is_digit(c),
    ensures
        parse_dec(ds.push(c), acc).0 == parse_dec(ds, acc).0 * 10 + digit_val(c),
    decreases ds.len(),
{
    if ds.len() == 0 {
        reveal_with_fuel(parse_dec, 3);
        assert(ds.push(c)[0] == c);
        assert(ds.push(c).drop_first() =~= Seq::<char>::empty());
        assert(parse_dec(ds.push(c), acc).0 == acc * 10 + digit_val(c));
    } else {
        assert(ds.push(c)[0] == ds[0]);
        assert(ds.push(c).drop_first() =~= ds.drop_first().push(c));
        lemma_parse_dec_push(ds.drop_first(), c, acc * 10 + digit_val(ds[0]));
        assert(parse_dec(ds, acc).0 == parse_dec(ds.drop_first(), acc * 10 + digit_val(ds[0])).0);
    }
}

/// Parsing the canonical representation of `n` yields `n` back.
pub proof fn lemma_parse_dec_rep(n: nat)
    ensures
        parse_dec(dec_rep(n), 0).0 == n,
    decreases n,
{
    if n < 10 {
        reveal_with_fuel(parse_dec, 3);
        lemma_digit_roundtrip(n);
        assert(dec_rep(n) == seq![digit_char(n)]);
        assert(dec_rep(n)[0] == digit_char(n));
        assert(dec_rep(n).drop_first() =~= Seq::<char>::empty());
        assert(parse_dec(dec_rep(n), 0).0 == 0 * 10 + digit_val(digit_char(n)));
    } else {
        lemma_parse_dec_rep(n / 10);
        lemma_dec_rep_digits(n / 10);
        lemma_digit_roundtrip(n % 10);
        assert(dec_rep(n) == dec_rep(n / 10).push(digit_char(n % 10)));
        lemma_parse_dec_push(dec_rep(n / 10), digit_char(n % 10), 0);
        assert(parse_dec(dec_rep(n), 0).0 == parse_dec(dec_rep(n / 10), 0).0 * 10 + n % 10);
        assert(parse_dec(dec_rep(n), 0).0 == (n / 10) * 10 + n % 10);
        assert((n / 10) * 10 + n % 10 == n);
    }
}

/// The digit-to-character table inverts the character-to-digit table.
pub proof fn lemma_digit_roundtrip(d: nat)
    requires
        d < 10,
    ensures
        is_digit(digit_char(d)),
        digit_val(digit_char(d)) == d,
{
}

pub fn digit_to_char(d: u64) -> (c: char)
    requires
        d < 10,
    ensures
        c == digit_char(d as nat),
{
    if d == 0 {
        '0'
    } else if d == 1 {
        '1'
    } else if d == 2 {
        '2'
    } else if d == 3 {
        '3'
    } else if d == 4 {
        '4'
    } else if d == 5 {
        '5'
    } else if d == 6 {
        '6'
    } else if d == 7 {
        '7'
    } else if d == 8 {
        '8'
    } else {
        '9'
    }
}

pub fn char_is_digit(c: char) -> (r: bool)
    ensures
        r == is_digit(c),
{
    c == '0' || c == '1' || c == '2' || c == '3' || c == '4' || c == '5' || c == '6' || c == '7'
        || c == '8' || c == '9'
}

pub fn char_to_digit(c: char) -> (d: u64)
    requires
        is_digit(c),
    ensures
        d == digit_val(c),
        d < 10,
{
    if c == '0' {
        0
    } else if c == '1' {
        1
    } else if c == '2' {
        2
    } else if c == '3' {
        3
    } else if c == '4' {
        4
    } else if c == '5' {
        5
    } else if c == '6' {
        6
    } else if c == '7' {
        7
    } else if c == '8' {
        8
    } else {
        9
    }
}

/// Renders `n` in canonical decimal.
pub fn u64_to_dec(n: u64) -> (r: Vec<char>)
    ensures
        r@ == dec_rep(n as nat),
    decreases n,
{
    if n < 10 {
        let mut v: Vec<char> = Vec::new();
        v.push(digit_to_char(n));
        proof {
            assert(v@ =~= dec_rep(n as nat));
        }
        v
    } else {
        let mut v = u64_to_dec(n / 10);
        v.push(digit_to_char(n % 10));
        proof {
            assert(v@ =~= dec_rep(n as nat));
        }
        v
    }
}

/// Greedy decimal parse of `v` from position `i`; mirrors [`parse_dec`]
/// and reports `None` when the folded value does not fit in a `u64`.
pub fn parse_u64_at(v: &Vec<char>, i: usize, acc: u64) -> (r: Option<(u64, usize)>)
    requires
        i <= v.len(),
    ensures
        ({
            let m = parse_dec(v@.skip(i as int), acc as nat);
            match r {
                Some(p) => p.0 == m.0 && p.1 == m.1 && i + m.1 <= v.len(),
                None => m.0 > u64::MAX,
            }
        }),
    decreases v.len() - i,
{
    if i == v.len() {
        proof {
            assert(v@.skip(i as int) =~= Seq::<char>::empty());
        }
        Some((acc, 0))
    } else {
        let c = v[i];
        proof {
            assert(v@.skip(i as int)[0] == v@[i as int]);
        }
        if !char_is_digit(c) {
            Some((acc, 0))
        } else {
            let d = char_to_digit(c);
            proof {
                assert(v@.skip(i as int).drop_first() =~= v@.skip(i as int + 1));
            }
            if acc <= (u64::MAX - d) / 10 {
                let rec = parse_u64_at(v, i + 1, acc * 10 + d);
                match rec {
                    Some(p) => Some((p.0, p.1 + 1)),
                    None => None,
                }
            } else {
                proof {
                    lemma_parse_dec_lower(v@.skip(i as int).drop_first(), (acc * 10 + d) as nat);
                }
                None
            }
        }
    }
}

} // verus!
