//! What decimal numbers have in common with no others.

use vstd::prelude::*;

use crate::text;

verus! {

/// A decimal number is made of digits.
pub proof fn lemma_decimal_digits(n: nat)
    ensures
        text::decimal(n).len() > 0,
        forall|i: int| 0 <= i < text::decimal(n).len() ==> text::is_digit(#[trigger] text::decimal(n)[i]),
    decreases n,
{
    if n >= 10 {
        lemma_decimal_digits(n / 10);
    }
}

/// Different numbers are written differently.
pub proof fn lemma_decimal_injective(a: nat, b: nat)
    requires
        text::decimal(a) == text::decimal(b),
    ensures
        a == b,
    decreases a,
{
    lemma_decimal_digits(a);
    lemma_decimal_digits(b);
    let da = text::decimal(a);
    let db = text::decimal(b);
    if a < 10 {
        if b >= 10 {
            lemma_decimal_digits(b / 10);
            assert(db.len() > 1);
        } else {
            assert(da[0] == db[0]);
        }
    } else if b < 10 {
        lemma_decimal_digits(a / 10);
        assert(da.len() > 1);
    } else {
        assert(da.drop_last() == text::decimal(a / 10));
        assert(db.drop_last() == text::decimal(b / 10));
        lemma_decimal_injective(a / 10, b / 10);
        assert(da.last() == db.last());
        assert(a % 10 == b % 10);
    }
}

/// A number and a suffix that starts with no digit can be told apart.
pub proof fn lemma_split_at_dash(a: nat, x: Seq<char>, b: nat, y: Seq<char>)
    requires
        text::decimal(a) + x == text::decimal(b) + y,
        x.len() > 0 ==> x[0] == '-',
        y.len() > 0 ==> y[0] == '-',
    ensures
        a == b,
        x == y,
{
    let da = text::decimal(a);
    let db = text::decimal(b);
    lemma_decimal_digits(a);
    lemma_decimal_digits(b);
    if da.len() < db.len() {
        assert((da + x)[da.len() as int] == (db + y)[da.len() as int]);
        assert(text::is_digit(db[da.len() as int]));
        assert((da + x).len() > da.len());
        assert(x[0] == '-');
    } else if db.len() < da.len() {
        assert((da + x)[db.len() as int] == (db + y)[db.len() as int]);
        assert(text::is_digit(da[db.len() as int]));
        assert((db + y).len() > db.len());
        assert(y[0] == '-');
    } else {
        assert((da + x).take(da.len() as int) == da);
        assert((db + y).take(db.len() as int) == db);
        lemma_decimal_injective(a, b);
        assert((da + x).skip(da.len() as int) == x);
        assert((db + y).skip(db.len() as int) == y);
    }
}

} // verus!
