//! The decimal forms of numbers and the names of generated labels.
use vstd::prelude::*;

verus! {

/// The character of a decimal digit.
pub open spec fn digit(d: int) -> char {
    if d == 0 {
        '0'
    } else if d == 1 {
        '1'
    } else if d == 2 {
        '2'
    } else if d == 3 {
        '3'
    } else if d == 4 {
        '4'
    } else if d == 5 {
        '5'
    } else if d == 6 {
        '6'
    } else if d == 7 {
        '7'
    } else if d == 8 {
        '8'
    } else {
        '9'
    }
}

/// The decimal form of a natural number, without leading zeros.
pub open spec fn decimal(n: nat) -> Seq<char>
    decreases n,
{
    if n < 10 {
        seq![digit(n as int)]
    } else {
        decimal(n / 10) + seq![digit((n % 10) as int)]
    }
}

/// The decimal form of an integer, with a leading `-` when it is negative.
pub open spec fn signed_decimal(i: int) -> Seq<char> {
    if i < 0 {
        seq!['-'] + decimal((-i) as nat)
    } else {
        decimal(i as nat)
    }
}

/// The name `name_index` of a generated label.
pub open spec fn numbered(name: Seq<char>, index: u64) -> Seq<char> {
    name + seq!['_'] + decimal(index as nat)
}

/// Appends the character of the digit `d`.
fn push_digit(s: &mut String, d: u64)
    requires
        d < 10,
    ensures
        final(s)@ == old(s)@.push(digit(d as int)),
{
    proof {
        reveal_strlit("0");
        reveal_strlit("1");
        reveal_strlit("2");
        reveal_strlit("3");
        reveal_strlit("4");
        reveal_strlit("5");
        reveal_strlit("6");
        reveal_strlit("7");
        reveal_strlit("8");
        reveal_strlit("9");
    }
    if d == 0 {
        s.append("0");
    } else if d == 1 {
        s.append("1");
    } else if d == 2 {
        s.append("2");
    } else if d == 3 {
        s.append("3");
    } else if d == 4 {
        s.append("4");
    } else if d == 5 {
        s.append("5");
    } else if d == 6 {
        s.append("6");
    } else if d == 7 {
        s.append("7");
    } else if d == 8 {
        s.append("8");
    } else {
        s.append("9");
    }
    assert(s@ =~= old(s)@.push(digit(d as int)));
}

/// The decimal form of `n`.
pub fn nat_text(n: u64) -> (r: String)
    ensures
        r@ == decimal(n as nat),
    decreases n,
{
    if n < 10 {
        let mut s = String::new();
        push_digit(&mut s, n);
        assert(s@ =~= decimal(n as nat));
        s
    } else {
        let mut s = nat_text(n / 10);
        push_digit(&mut s, n % 10);
        assert(s@ =~= decimal(n as nat));
        s
    }
}

/// The decimal form of `n`, with a `-` when it is negative.
pub fn int_text(n: i64) -> (r: String)
    ensures
        r@ == signed_decimal(n as int),
{
    if n < 0 {
        let m: u64 = (0i128 - n as i128) as u64;
        let mut s = "-".to_owned();
        proof {
            reveal_strlit("-");
        }
        let t = nat_text(m);
        s.append(t.as_str());
        assert(s@ =~= signed_decimal(n as int));
        s
    } else {
        nat_text(n as u64)
    }
}

} // verus!

verus! {

/// A decimal form is never empty, and it has two digits or more from 10 on.
pub proof fn lemma_decimal_len(n: nat)
    ensures
        decimal(n).len() >= 1,
        n >= 10 ==> decimal(n).len() >= 2,
    decreases n,
{
    if n >= 10 {
        lemma_decimal_len(n / 10);
    }
}

/// No character of a decimal form is `_`.
pub proof fn lemma_decimal_no_underscore(n: nat)
    ensures
        forall|j: int| 0 <= j < decimal(n).len() ==> decimal(n)[j] != '_',
    decreases n,
{
    if n >= 10 {
        lemma_decimal_no_underscore(n / 10);
        let d = decimal(n / 10);
        assert forall|j: int| 0 <= j < decimal(n).len() implies decimal(n)[j] != '_' by {
            if j < d.len() {
                assert(decimal(n)[j] == d[j]);
            }
        }
    }
}

/// Distinct digits have distinct characters.
proof fn lemma_digit_injective(a: int, b: int)
    requires
        0 <= a < 10,
        0 <= b < 10,
        digit(a) == digit(b),
    ensures
        a == b,
{
}

/// Distinct numbers have distinct decimal forms.
pub proof fn lemma_decimal_injective(a: nat, b: nat)
    requires
        decimal(a) == decimal(b),
    ensures
        a == b,
    decreases a,
{
    lemma_decimal_len(a);
    lemma_decimal_len(b);
    if a < 10 && b < 10 {
        assert(decimal(a)[0] == decimal(b)[0]);
        assert(decimal(a) == seq![digit(a as int)]);
        assert(decimal(b) == seq![digit(b as int)]);
        assert(decimal(a)[0] == digit(a as int));
        assert(decimal(b)[0] == digit(b as int));
        lemma_digit_injective(a as int, b as int);
    } else if a >= 10 && b >= 10 {
        let da = decimal(a / 10);
        let db = decimal(b / 10);
        let la = decimal(a).len();
        assert(decimal(a)[la - 1] == digit((a % 10) as int));
        assert(decimal(b)[la - 1] == digit((b % 10) as int));
        lemma_digit_injective((a % 10) as int, (b % 10) as int);
        assert(da =~= decimal(a).subrange(0, la - 1));
        assert(db =~= decimal(b).subrange(0, la - 1));
        lemma_decimal_injective(a / 10, b / 10);
    } else {
        assert(decimal(a).len() != decimal(b).len());
    }
}

/// A generated label's name gives back its base and its number.
pub proof fn lemma_numbered_injective(b1: Seq<char>, i1: u64, b2: Seq<char>, i2: u64)
    requires
        numbered(b1, i1) == numbered(b2, i2),
    ensures
        b1 == b2,
        i1 == i2,
{
    let d1 = decimal(i1 as nat);
    let d2 = decimal(i2 as nat);
    let s = numbered(b1, i1);
    let l = s.len() as int;
    lemma_decimal_no_underscore(i1 as nat);
    lemma_decimal_no_underscore(i2 as nat);
    if d1.len() < d2.len() {
        let p = b1.len() as int;
        assert(numbered(b1, i1)[p] == '_');
        assert(numbered(b2, i2)[p] == d2[p - (b2.len() + 1)]);
        assert(false);
    } else if d2.len() < d1.len() {
        let p = b2.len() as int;
        assert(numbered(b2, i2)[p] == '_');
        assert(numbered(b1, i1)[p] == d1[p - (b1.len() + 1)]);
        assert(false);
    }
    assert(d1 =~= numbered(b1, i1).subrange(l - d1.len(), l));
    assert(d2 =~= numbered(b2, i2).subrange(l - d2.len(), l));
    lemma_decimal_injective(i1 as nat, i2 as nat);
    assert(b1 =~= numbered(b1, i1).subrange(0, b1.len() as int));
    assert(b2 =~= numbered(b2, i2).subrange(0, b2.len() as int));
}

} // verus!
