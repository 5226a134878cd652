//! Integers written in decimal.
use vstd::prelude::*;
use vstd::string::*;

verus! {

/// The character of a single decimal digit.
pub open spec fn digit(d: nat) -> char {
    (48 + d) as char
}

/// The decimal digits of `n`, the most significant first, without leading
/// zeros.
pub open spec fn digits(n: nat) -> Seq<char>
    decreases n,
{
    if n < 10 {
        seq![digit(n)]
    } else {
        digits(n / 10).push(digit(n % 10))
    }
}

/// `n` in decimal, with a minus sign in front where it is negative.
pub open spec fn decimal(n: int) -> Seq<char> {
    if n < 0 {
        seq!['-'] + digits((-n) as nat)
    } else {
        digits(n as nat)
    }
}

fn digit_text(d: u64) -> (text: &'static str)
    requires
        d < 10,
    ensures
        text@ == seq![digit(d as nat)],
{
    proof {
        reveal_strlit("0");
        reveal_strlit("1");
        reveal_strlit("2");
        reveal_strlit("3");
        reveal_strlit("4");
        reveal_strlit("5");
        reveal_strlit("6");
        reveal_strlit("7");
        reveal_strlit("8");
        reveal_strlit("9");
    }
    match d {
        0 => "0",
        1 => "1",
        2 => "2",
        3 => "3",
        4 => "4",
        5 => "5",
        6 => "6",
        7 => "7",
        8 => "8",
        _ => "9",
    }
}

fn append_digits(n: u64, text: &mut String)
    ensures
        final(text)@ == old(text)@ + digits(n as nat),
    decreases n,
{
    if n >= 10 {
        append_digits(n / 10, text);
    }
    text.append(digit_text(n % 10));
    assert(text@ =~= old(text)@ + digits(n as nat));
}

/// Writes `n` behind `text`, in decimal.
pub fn append_decimal(n: i64, text: &mut String)
    ensures
        final(text)@ == old(text)@ + decimal(n as int),
{
    if n < 0 {
        proof {
            reveal_strlit("-");
        }
        text.append("-");
        append_digits((-(n as i128)) as u64, text);
        assert(text@ =~= old(text)@ + decimal(n as int));
    } else {
        append_digits(n as u64, text);
    }
}

/// A number is written with digits only.
proof fn lemma_digits(n: nat)
    ensures
        digits(n).len() > 0,
        forall|i: int| 0 <= i < digits(n).len() ==> '0' <= (#[trigger] digits(n)[i]) <= '9',
    decreases n,
{
    if n >= 10 {
        lemma_digits(n / 10);
    }
}

proof fn lemma_digits_injective(a: nat, b: nat)
    requires
        digits(a) == digits(b),
    ensures
        a == b,
    decreases a,
{
    lemma_digits(a / 10);
    lemma_digits(b / 10);
    assert(digits(a).last() == digit(a % 10));
    assert(digits(b).last() == digit(b % 10));
    assert(a % 10 == b % 10);
    if a >= 10 && b >= 10 {
        assert(digits(a).drop_last() =~= digits(a / 10));
        assert(digits(b).drop_last() =~= digits(b / 10));
        lemma_digits_injective(a / 10, b / 10);
    }
}

/// Different numbers are written differently.
pub proof fn law_decimal_injective(a: int, b: int)
    requires
        decimal(a) == decimal(b),
    ensures
        a == b,
{
    lemma_digits(if a < 0 {
        (-a) as nat
    } else {
        a as nat
    });
    lemma_digits(if b < 0 {
        (-b) as nat
    } else {
        b as nat
    });
    assert(decimal(a)[0] == decimal(b)[0]);
    if a < 0 && b < 0 {
        assert(decimal(a).skip(1) =~= digits((-a) as nat));
        assert(decimal(b).skip(1) =~= digits((-b) as nat));
        lemma_digits_injective((-a) as nat, (-b) as nat);
    } else if a >= 0 && b >= 0 {
        lemma_digits_injective(a as nat, b as nat);
    } else if a >= 0 {
        assert(digits(a as nat)[0] >= '0');
    } else {
        assert(digits(b as nat)[0] >= '0');
    }
}

/// A number is written with at least one character, and without colons.
pub proof fn lemma_decimal_is_a_field(n: int)
    ensures
        decimal(n).len() > 0,
        !decimal(n).contains(':'),
{
    let magnitude = if n < 0 {
        (-n) as nat
    } else {
        n as nat
    };
    lemma_digits(magnitude);
    assert forall|i: int| 0 <= i < decimal(n).len() implies decimal(n)[i] != ':' by {
        if n >= 0 {
            assert(digits(magnitude)[i] <= '9');
        } else if i > 0 {
            assert(decimal(n)[i] == digits(magnitude)[i - 1]);
        }
    }
}

/// The number that a text of digits counts up to, read from the left.
pub open spec fn read_digits(text: Seq<char>) -> int
    decreases text.len(),
{
    if text.len() == 0 {
        0
    } else {
        10 * read_digits(text.drop_last()) + (text.last() as int - '0' as int)
    }
}

/// Whether `text` is digits, at least one, and without needless zeros in
/// front.
pub open spec fn is_numeral(text: Seq<char>) -> bool {
    &&& text.len() > 0
    &&& forall|i: int| 0 <= i < text.len() ==> '0' <= (#[trigger] text[i]) && text[i] <= '9'
    &&& text[0] == '0' ==> text.len() == 1
}

proof fn lemma_digits_read_back(n: nat)
    ensures
        is_numeral(digits(n)),
        read_digits(digits(n)) == n,
        n > 0 ==> digits(n)[0] != '0',
    decreases n,
{
    reveal_with_fuel(read_digits, 2);
    lemma_digits(n);
    if n >= 10 {
        lemma_digits_read_back(n / 10);
        assert(digits(n).drop_last() =~= digits(n / 10));
        assert(digits(n)[0] == digits(n / 10)[0]);
    } else {
        assert(digits(n).drop_last() =~= Seq::empty());
    }
}

/// What is written behind a text is the number itself: digits that read as
/// its magnitude, with a minus sign before them exactly where it is negative.
pub proof fn law_decimal_reads_back(n: i64, text: &mut String)
    requires
        call_ensures(append_decimal, (n, text), ()),
    ensures
        final(text)@.take(old(text)@.len() as int) == old(text)@,
        n >= 0 ==> {
            &&& is_numeral(final(text)@.skip(old(text)@.len() as int))
            &&& read_digits(final(text)@.skip(old(text)@.len() as int)) == n
        },
        n < 0 ==> {
            &&& final(text)@[old(text)@.len() as int] == '-'
            &&& is_numeral(final(text)@.skip(old(text)@.len() as int + 1))
            &&& read_digits(final(text)@.skip(old(text)@.len() as int + 1)) == -n
        },
{
    let front = old(text)@.len() as int;
    assert(final(text)@.take(front) =~= old(text)@);
    assert(final(text)@.skip(front) =~= decimal(n as int));
    if n >= 0 {
        lemma_digits_read_back(n as nat);
    } else {
        lemma_digits_read_back((-n) as nat);
        assert(final(text)@.skip(front + 1) =~= digits((-n) as nat));
    }
}

/// The text of a number is digits that read as its magnitude, with a minus
/// sign before them exactly where it is negative.
pub proof fn law_decimal_text(n: int)
    ensures
        n >= 0 ==> is_numeral(decimal(n)) && read_digits(decimal(n)) == n,
        n < 0 ==> decimal(n).len() > 1 && decimal(n)[0] == '-' && is_numeral(decimal(n).skip(1))
            && read_digits(decimal(n).skip(1)) == -n,
{
    if n >= 0 {
        lemma_digits_read_back(n as nat);
    } else {
        lemma_digits_read_back((-n) as nat);
        assert(decimal(n).skip(1) =~= digits((-n) as nat));
    }
}

} // verus!
