//! Decimal numerals.

use vstd::prelude::*;
use vstd::string::*;

verus! {

/// The character that stands for the digit `d`.
pub open spec fn digit(d: nat) -> char {
    (0x30 + d) as char
}

/// The decimal numeral of `n`, without leading zeros.
pub open spec fn decimal(n: nat) -> Seq<char>
    decreases n,
{
    if n < 10 {
        seq![digit(n)]
    } else {
        decimal(n / 10).push(digit(n % 10))
    }
}

/// The one-character string that shows a digit.
fn digit_str(d: u64) -> (s: &'static str)
    requires
        d < 10,
    ensures
        s@ == seq![digit(d as nat)],
{
    proof {
        reveal_strlit("0");
        reveal_strlit("1");
        reveal_strlit("2");
        reveal_strlit("3");
        reveal_strlit("4");
        reveal_strlit("5");
        reveal_strlit("6");
        reveal_strlit("7");
        reveal_strlit("8");
        reveal_strlit("9");
    }
    let s: &'static str = if d == 0 {
        "0"
    } else if d == 1 {
        "1"
    } else if d == 2 {
        "2"
    } else if d == 3 {
        "3"
    } else if d == 4 {
        "4"
    } else if d == 5 {
        "5"
    } else if d == 6 {
        "6"
    } else if d == 7 {
        "7"
    } else if d == 8 {
        "8"
    } else {
        "9"
    };
    assert(s@ =~= seq![digit(d as nat)]);
    s
}

/// Writes a number in decimal.
pub fn decimal_string(n: u64) -> (s: String)
    ensures
        s@ == decimal(n as nat),
    decreases n,
{
    if n < 10 {
        let mut s = String::new();
        s.append(digit_str(n));
        assert(s@ =~= decimal(n as nat));
        s
    } else {
        let mut s = decimal_string(n / 10);
        s.append(digit_str(n % 10));
        assert(s@ =~= decimal(n as nat));
        s
    }
}

/// Reads a numeral back: the number that a sequence of digits stands for.
pub open spec fn numeral_value(s: Seq<char>) -> nat
    decreases s.len(),
{
    if s.len() == 0 {
        0
    } else {
        10 * numeral_value(s.drop_last()) + (s.last() as nat - 0x30) as nat
    }
}

/// A numeral names its number: reading it back gives the number, so that two numbers never
/// share a numeral.
pub proof fn law_decimal_reads_back(n: nat)
    ensures
        numeral_value(decimal(n)) == n,
    decreases n,
{
    reveal_with_fuel(numeral_value, 2);
    if n < 10 {
        assert(decimal(n).drop_last() =~= Seq::<char>::empty());
    } else {
        law_decimal_reads_back(n / 10);
        assert(decimal(n).drop_last() =~= decimal(n / 10));
    }
}

/// Whether a character is a decimal digit.
pub open spec fn is_digit(c: char) -> bool {
    '0' <= c <= '9'
}

/// Whether a text is a proper numeral: digits only, at least one, and no needless zero in front.
pub open spec fn is_numeral(s: Seq<char>) -> bool {
    &&& s.len() > 0
    &&& forall|i: int| 0 <= i < s.len() ==> is_digit(#[trigger] s[i])
    &&& s.len() > 1 ==> s[0] != '0'
}

/// Numbers are written as proper numerals.
pub proof fn law_decimal_is_a_numeral(n: nat)
    ensures
        is_numeral(decimal(n)),
        n > 0 ==> decimal(n)[0] != '0',
    decreases n,
{
    if n >= 10 {
        law_decimal_is_a_numeral(n / 10);
        let front = decimal(n / 10);
        assert forall|i: int| 0 <= i < decimal(n).len() implies is_digit(
            #[trigger] decimal(n)[i],
        ) by {
            if i < front.len() {
                assert(decimal(n)[i] == front[i]);
            }
        }
        assert(decimal(n)[0] == front[0]);
    }
}

/// The parts of a text between the places where a separator stands.
pub open spec fn split(s: Seq<char>, separator: char) -> Seq<Seq<char>>
    decreases s.len(),
{
    if s.len() == 0 {
        seq![Seq::empty()]
    } else {
        let rest = split(s.drop_first(), separator);
        if s[0] == separator {
            seq![Seq::empty()] + rest
        } else {
            seq![seq![s[0]] + rest[0]] + rest.drop_first()
        }
    }
}

/// A text splits into its part before the first separator and the parts of what follows.
pub proof fn law_splitting_takes_the_first_part(
    part: Seq<char>,
    separator: char,
    rest: Seq<char>,
)
    requires
        !part.contains(separator),
    ensures
        split(part, separator) == seq![part],
        split(part + seq![separator] + rest, separator) == seq![part] + split(rest, separator),
    decreases part.len(),
{
    let whole = part + seq![separator] + rest;
    if part.len() == 0 {
        assert(part =~= Seq::<char>::empty());
        assert(split(part, separator) =~= seq![part]);
        assert(whole.drop_first() =~= rest);
        assert(seq![Seq::<char>::empty()] =~= seq![part]);
    } else {
        let tail = part.drop_first();
        assert(part[0] != separator) by {
            assert(part.contains(part[0]));
        }
        assert(!tail.contains(separator)) by {
            if tail.contains(separator) {
                let i = tail.index_of(separator);
                assert(part[i + 1] == separator);
            }
        }
        law_splitting_takes_the_first_part(tail, separator, rest);
        assert(seq![part[0]] + tail =~= part);
        assert(whole.drop_first() =~= tail + seq![separator] + rest);
        assert(split(tail, separator)[0] == tail);
        assert(split(tail, separator).drop_first() =~= Seq::<Seq<char>>::empty());
        assert(split(part, separator) =~= seq![part]);
        let after = split(tail + seq![separator] + rest, separator);
        assert(after[0] == tail);
        assert(after.drop_first() =~= split(rest, separator));
        assert(whole[0] == part[0]);
    }
}

} // verus!
