//! Decimal representation of unsigned numbers, used for the
//! sequence-assigned transaction identifiers and for serializing
//! numeric block fields.

use vstd::prelude::*;

verus! {

/// The character for a single decimal digit value.
pub open spec fn dec_digit(d: nat) -> char {
    if d == 0 {
        '0'
    } else if d == 1 {
        '1'
    } else if d == 2 {
        '2'
    } else if d == 3 {
        '3'
    } else if d == 4 {
        '4'
    } else if d == 5 {
        '5'
    } else if d == 6 {
        '6'
    } else if d == 7 {
        '7'
    } else if d == 8 {
        '8'
    } else {
        '9'
    }
}

pub open spec fn is_digit_char(c: char) -> bool {
    c == '0' || c == '1' || c == '2' || c == '3' || c == '4' || c == '5' || c == '6' || c == '7'
        || c == '8' || c == '9'
}

/// The value of a single decimal digit character; zero on any other character.
pub open spec fn digit_val(c: char) -> nat {
    if c == '1' {
        1
    } else if c == '2' {
        2
    } else if c == '3' {
        3
    } else if c == '4' {
        4
    } else if c == '5' {
        5
    } else if c == '6' {
        6
    } else if c == '7' {
        7
    } else if c == '8' {
        8
    } else if c == '9' {
        9
    } else {
        0
    }
}

/// The canonical decimal form of a natural number: no sign, no leading
/// zeros, most significant digit first.
pub open spec fn dec_of(n: nat) -> Seq<char>
    decreases n,
{
    if n < 10 {
        seq![dec_digit(n)]
    } else {
        dec_of(n / 10).push(dec_digit(n % 10))
    }
}

/// The numeric value of a digit string, most significant digit first.
pub open spec fn val_of(s: Seq<char>) -> nat
    decreases s.len(),
{
    if s.len() == 0 {
        0
    } else {
        val_of(s.drop_last()) * 10 + digit_val(s.last())
    }
}

/// A string that is the canonical decimal form of a value that fits in `u64`.
pub open spec fn is_u64_dec(s: Seq<char>) -> bool {
    s == dec_of(val_of(s)) && val_of(s) <= u64::MAX
}

/// `dec_of` and `val_of` are mutual inverses on canonical forms, and the
/// canonical form is a nonempty string of digits.
pub proof fn lemma_dec_of_val(n: nat)
    ensures
        val_of(dec_of(n)) == n,
        dec_of(n).len() >= 1,
        forall|i: int| 0 <= i < dec_of(n).len() ==> is_digit_char(#[trigger] dec_of(n)[i]),
    decreases n,
{
    if n < 10 {
        let s = dec_of(n);
        assert(s.drop_last() =~= Seq::<char>::empty());
        assert(val_of(Seq::<char>::empty()) == 0);
        assert(s.last() == dec_digit(n));
        assert(val_of(s) == val_of(s.drop_last()) * 10 + digit_val(s.last()));
        assert(val_of(s) == digit_val(dec_digit(n)));
    } else {
        lemma_dec_of_val(n / 10);
        let s = dec_of(n / 10);
        let t = s.push(dec_digit(n % 10));
        assert(t.drop_last() =~= s);
        assert(t.last() == dec_digit(n % 10));
        assert(val_of(t) == val_of(s) * 10 + digit_val(dec_digit((n % 10) as nat)));
        assert(digit_val(dec_digit((n % 10) as nat)) == n % 10);
        assert(n / 10 * 10 + n % 10 == n) by {
            vstd::arithmetic::div_mod::lemma_fundamental_div_mod(n as int, 10);
        };
        assert(forall|i: int| 0 <= i < t.len() - 1 ==> t[i] == s[i]);
    }
}

/// Distinct numbers have distinct canonical decimal forms.
pub proof fn lemma_dec_of_injective(a: nat, b: nat)
    ensures
        dec_of(a) == dec_of(b) ==> a == b,
{
    if dec_of(a) == dec_of(b) {
        lemma_dec_of_val(a);
        lemma_dec_of_val(b);
    }
}

/// The value of a prefix of a digit string never exceeds the value of the
/// whole string.
pub proof fn lemma_val_take_le(s: Seq<char>, j: int)
    requires
        0 <= j <= s.len(),
    ensures
        val_of(s.take(j)) <= val_of(s),
    decreases s.len() - j,
{
    if j < s.len() {
        let t = s.take(j + 1);
        assert(t.drop_last() =~= s.take(j));
        assert(t.last() == s[j]);
        assert(val_of(s.take(j)) <= val_of(t));
        lemma_val_take_le(s, j + 1);
    } else {
        assert(s.take(j) =~= s);
    }
}

/// Relies on `String::push`: appends exactly the one given character.
#[verifier::external_body]
pub(crate) fn push_char(s: &mut String, c: char)
    ensures
        final(s)@ == old(s)@.push(c),
{
    s.push(c);
}

/// The character for a digit value, as executable code.
pub fn digit_char(d: u64) -> (c: char)
    requires
        d < 10,
    ensures
        c == dec_digit(d as nat),
{
    if d == 0 {
        '0'
    } else if d == 1 {
        '1'
    } else if d == 2 {
        '2'
    } else if d == 3 {
        '3'
    } else if d == 4 {
        '4'
    } else if d == 5 {
        '5'
    } else if d == 6 {
        '6'
    } else if d == 7 {
        '7'
    } else if d == 8 {
        '8'
    } else {
        '9'
    }
}

/// The value of a digit character, as executable code.
pub fn digit_value(c: char) -> (d: u64)
    requires
        is_digit_char(c),
    ensures
        d as nat == digit_val(c),
        d < 10,
{
    if c == '1' {
        1
    } else if c == '2' {
        2
    } else if c == '3' {
        3
    } else if c == '4' {
        4
    } else if c == '5' {
        5
    } else if c == '6' {
        6
    } else if c == '7' {
        7
    } else if c == '8' {
        8
    } else if c == '9' {
        9
    } else {
        0
    }
}

/// Renders a number in its canonical decimal form.
pub fn u64_to_dec(n: u64) -> (s: String)
    ensures
        s@ == dec_of(n as nat),
    decreases n,
{
    if n < 10 {
        let mut s = String::new();
        push_char(&mut s, digit_char(n));
        proof {
            assert(s@ =~= dec_of(n as nat));
        }
        s
    } else {
        let mut s = u64_to_dec(n / 10);
        push_char(&mut s, digit_char(n % 10));
        proof {
            assert(s@ =~= dec_of(n as nat));
        }
        s
    }
}

/// Reads back a number from its canonical decimal form.
pub fn dec_to_u64(s: &str) -> (n: u64)
    requires
        is_u64_dec(s@),
    ensures
        n as nat == val_of(s@),
        s@ == dec_of(n as nat),
{
    proof {
        lemma_dec_of_val(val_of(s@));
    }
    let len = s.unicode_len();
    let mut i: usize = 0;
    let mut acc: u64 = 0;
    while i < len
        invariant
            0 <= i <= len,
            len == s@.len(),
            is_u64_dec(s@),
            forall|k: int| 0 <= k < s@.len() ==> is_digit_char(#[trigger] s@[k]),
            acc as nat == val_of(s@.take(i as int)),
        decreases len - i,
    {
        let c = s.get_char(i);
        let d = digit_value(c);
        proof {
            lemma_val_take_le(s@, i + 1);
            assert(s@.take(i + 1).drop_last() =~= s@.take(i as int));
            assert(s@.take(i + 1).last() == s@[i as int]);
            assert(val_of(s@.take(i + 1)) == val_of(s@.take(i as int)) * 10 + digit_val(
                s@[i as int],
            ));
        }
        acc = acc * 10 + d;
        i = i + 1;
    }
    proof {
        assert(s@.take(len as int) =~= s@);
    }
    acc
}

} // verus!
