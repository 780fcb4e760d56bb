//! Canonical decimal numerals: the digits of a natural number without
//! leading zeros, read and written.

use vstd::prelude::*;

verus! {

pub open spec fn is_digit(c: char) -> bool {
    '0' <= c && c <= '9'
}

/// The character that writes the digit `d`, for `0 <= d < 10`.
pub open spec fn digit_char(d: int) -> char {
    ((d + 48) as u8) as char
}

/// The value of a digit character; 0 for any other character.
pub open spec fn digit_value(c: char) -> nat {
    if is_digit(c) {
        (c as int - 48) as nat
    } else {
        0
    }
}

pub open spec fn all_digits(t: Seq<char>) -> bool {
    forall|i: int| 0 <= i < t.len() ==> is_digit(#[trigger] t[i])
}

/// `t` is a canonical numeral: one digit or more, and no leading zero
/// except in the numeral "0" itself.
pub open spec fn is_decimal_text(t: Seq<char>) -> bool {
    &&& t.len() >= 1
    &&& all_digits(t)
    &&& t.len() > 1 ==> t[0] != '0'
}

/// The number that a sequence of digits writes.
pub open spec fn decimal_value(t: Seq<char>) -> nat
    decreases t.len(),
{
    if t.len() == 0 {
        0
    } else {
        decimal_value(t.drop_last()) * 10 + digit_value(t.last())
    }
}

/// The canonical numeral of `n`.
pub open spec fn decimal(n: nat) -> Seq<char>
    decreases n,
{
    if n < 10 {
        seq![digit_char(n as int)]
    } else {
        decimal(n / 10).push(digit_char((n % 10) as int))
    }
}

/// What a text reads as: the number it writes, when it is a canonical
/// numeral of a number no greater than `limit`.
pub open spec fn read_decimal(t: Seq<char>, limit: nat) -> Option<nat> {
    if is_decimal_text(t) && decimal_value(t) <= limit {
        Some(decimal_value(t))
    } else {
        None
    }
}

/// A numeral is canonical, free of any character that is no digit, and
/// writes the number it was made from.
pub proof fn lemma_decimal_reads_back(n: nat)
    ensures
        is_decimal_text(decimal(n)),
        decimal_value(decimal(n)) == n,
        n >= 1 ==> decimal(n)[0] != '0',
    decreases n,
{
    if n < 10 {
        let t = decimal(n);
        assert(t.len() == 1);
        assert(t[0] == digit_char(n as int));
        assert(is_digit(t[0]));
        assert(t.drop_last().len() == 0);
        assert(decimal_value(t) == decimal_value(t.drop_last()) * 10 + digit_value(t.last()));
    } else {
        lemma_decimal_reads_back(n / 10);
        let front = decimal(n / 10);
        let c = digit_char((n % 10) as int);
        let t = front.push(c);
        assert(t == decimal(n));
        assert(t.drop_last() == front);
        assert(is_digit(c));
        assert(all_digits(t)) by {
            assert forall|i: int| 0 <= i < t.len() implies is_digit(#[trigger] t[i]) by {
                if i < front.len() {
                    assert(t[i] == front[i]);
                }
            }
        }
        assert(t[0] == front[0]);
        assert(decimal_value(t) == decimal_value(front) * 10 + digit_value(c));
    }
}

/// A canonical numeral is the numeral of the number it writes.
pub proof fn lemma_decimal_of_value(t: Seq<char>)
    requires
        is_decimal_text(t),
    ensures
        decimal(decimal_value(t)) == t,
        t[0] != '0' ==> decimal_value(t) >= 1,
    decreases t.len(),
{
    let front = t.drop_last();
    let c = t.last();
    assert(is_digit(c));
    assert(t == front.push(c));
    if front.len() == 0 {
        assert(decimal_value(front) == 0);
        assert(decimal_value(t) == digit_value(c));
        assert(digit_char(digit_value(c) as int) == c);
        assert(decimal(decimal_value(t)) =~= t);
    } else {
        assert(front[0] == t[0]);
        assert(all_digits(front)) by {
            assert forall|i: int| 0 <= i < front.len() implies is_digit(#[trigger] front[i]) by {
                assert(front[i] == t[i]);
            }
        }
        lemma_decimal_of_value(front);
        let v = decimal_value(front);
        let n = decimal_value(t);
        assert(n == v * 10 + digit_value(c));
        assert(v >= 1);
        assert(n / 10 == v);
        assert(n % 10 == digit_value(c));
        assert(digit_char(digit_value(c) as int) == c);
    }
}

/// Reading more digits never gives a smaller number.
pub proof fn lemma_decimal_value_prefix(t: Seq<char>, k: int)
    requires
        0 <= k <= t.len(),
    ensures
        decimal_value(t.take(k)) <= decimal_value(t),
    decreases t.len() - k,
{
    if k == t.len() {
        assert(t.take(k) == t);
    } else {
        lemma_decimal_value_prefix(t.drop_last(), k);
        assert(t.drop_last().take(k) == t.take(k));
    }
}

/// The one-character text of a digit.
fn digit_str(d: u32) -> (s: &'static str)
    requires
        d < 10,
    ensures
        s@ == seq![digit_char(d as int)],
{
    proof {
        reveal_strlit("0");
        reveal_strlit("1");
        reveal_strlit("2");
        reveal_strlit("3");
        reveal_strlit("4");
        reveal_strlit("5");
        reveal_strlit("6");
        reveal_strlit("7");
        reveal_strlit("8");
        reveal_strlit("9");
    }
    let s = match d {
        0 => "0",
        1 => "1",
        2 => "2",
        3 => "3",
        4 => "4",
        5 => "5",
        6 => "6",
        7 => "7",
        8 => "8",
        _ => "9",
    };
    assert(s@ =~= seq![digit_char(d as int)]);
    s
}

/// Writes `n` as a canonical numeral.
pub fn format_decimal(n: u32) -> (s: String)
    ensures
        s@ == decimal(n as nat),
    decreases n,
{
    if n < 10 {
        String::from_str(digit_str(n))
    } else {
        let mut s = format_decimal(n / 10);
        s.append(digit_str(n % 10));
        assert(s@ =~= decimal((n / 10) as nat).push(digit_char((n % 10) as int)));
        s
    }
}

/// Reads a canonical numeral of a number no greater than `limit`.
pub fn parse_decimal(t: &Vec<char>, limit: u32) -> (r: Option<u32>)
    ensures
        match r {
            Some(n) => read_decimal(t@, limit as nat) == Some(n as nat),
            None => read_decimal(t@, limit as nat) is None,
        },
{
    let n = t.len();
    if n == 0 {
        return None;
    }
    if n > 1 && t[0] == '0' {
        return None;
    }
    let mut acc: u64 = 0;
    let mut i: usize = 0;
    while i < n
        invariant
            i <= n,
            n == t.len(),
            all_digits(t@.take(i as int)),
            acc == decimal_value(t@.take(i as int)),
            acc <= limit,
        decreases n - i,
    {
        let c = t[i];
        if !(c >= '0' && c <= '9') {
            assert(!is_digit(t@[i as int]));
            return None;
        }
        let d: u64 = (c as u32 - 48) as u64;
        let ghost longer = t@.take(i + 1);
        proof {
            assert(longer.drop_last() == t@.take(i as int));
            assert(longer.last() == c);
            assert(d == digit_value(c));
            assert(all_digits(longer)) by {
                assert forall|j: int| 0 <= j < longer.len() implies is_digit(
                    #[trigger] longer[j],
                ) by {
                    if j < i {
                        assert(longer[j] == t@.take(i as int)[j]);
                    }
                }
            }
        }
        acc = acc * 10 + d;
        if acc > limit as u64 {
            proof {
                lemma_decimal_value_prefix(t@, i + 1);
            }
            return None;
        }
        i += 1;
    }
    proof {
        assert(t@.take(n as int) == t@);
    }
    Some(acc as u32)
}

} // verus!
