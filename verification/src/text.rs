//! Texts: decimal numbers, names with numbers in them, and lists.
use vstd::prelude::*;
use vstd::string::*;

verus! {

/// Two texts in sequence.
pub fn joined_text(a: &str, b: &str) -> (r: String)
    ensures
        r@ == a@ + b@,
{
    let mut s = String::from_str(a);
    s.append(b);
    s
}

/// The sign of a decimal digit.
pub open spec fn digit(d: int) -> Seq<char> {
    if d == 0 {
        "0"@
    } else if d == 1 {
        "1"@
    } else if d == 2 {
        "2"@
    } else if d == 3 {
        "3"@
    } else if d == 4 {
        "4"@
    } else if d == 5 {
        "5"@
    } else if d == 6 {
        "6"@
    } else if d == 7 {
        "7"@
    } else if d == 8 {
        "8"@
    } else {
        "9"@
    }
}

/// The decimal notation of a number.
pub open spec fn decimal(n: nat) -> Seq<char>
    decreases n,
{
    if n < 10 {
        digit(n as int)
    } else {
        decimal(n / 10) + digit((n % 10) as int)
    }
}

/// Computes [`digit`].
fn digit_text(d: u64) -> (r: &'static str)
    requires
        d < 10,
    ensures
        r@ == digit(d as int),
{
    match d {
        0 => "0",
        1 => "1",
        2 => "2",
        3 => "3",
        4 => "4",
        5 => "5",
        6 => "6",
        7 => "7",
        8 => "8",
        _ => "9",
    }
}

/// Computes [`decimal`].
pub fn decimal_text(n: u64) -> (r: String)
    ensures
        r@ == decimal(n as nat),
    decreases n,
{
    if n < 10 {
        String::from_str(digit_text(n))
    } else {
        let mut s = decimal_text(n / 10);
        s.append(digit_text(n % 10));
        s
    }
}

/// `prefix`, the number, and `suffix`.
pub open spec fn numbered(prefix: Seq<char>, n: nat, suffix: Seq<char>) -> Seq<char> {
    prefix + decimal(n) + suffix
}

/// Computes [`numbered`].
pub fn numbered_text(prefix: &str, n: usize, suffix: &str) -> (r: String)
    ensures
        r@ == numbered(prefix@, n as nat, suffix@),
{
    let mut s = String::from_str(prefix);
    let d = decimal_text(n as u64);
    s.append(d.as_str());
    s.append(suffix);
    s
}

/// The decimal notation of a number, with a sign where it is negative.
pub open spec fn signed(n: int) -> Seq<char> {
    if n < 0 {
        "-"@ + decimal((-n) as nat)
    } else {
        decimal(n as nat)
    }
}

/// Computes [`signed`].
pub fn signed_text(n: i32) -> (r: String)
    ensures
        r@ == signed(n as int),
{
    if n < 0 {
        let magnitude: i64 = -(n as i64);
        let d = decimal_text(magnitude as u64);
        joined_text("-", d.as_str())
    } else {
        decimal_text(n as u64)
    }
}

/// Numbers, separated by commas.
pub open spec fn separated(s: Seq<i32>) -> Seq<char>
    decreases s.len(),
{
    if s.len() == 0 {
        ""@
    } else if s.len() == 1 {
        signed(s[0] as int)
    } else {
        separated(s.drop_last()) + ", "@ + signed(s.last() as int)
    }
}

/// Numbers, separated by commas, in brackets.
pub open spec fn listed(s: Seq<i32>) -> Seq<char> {
    "["@ + separated(s) + "]"@
}

/// Computes [`listed`].
pub fn listed_text(s: &Vec<i32>) -> (r: String)
    ensures
        r@ == listed(s@),
{
    let mut text = String::from_str("[");
    let ghost open = text@;
    assert(s@.take(0).len() == 0);
    proof {
        reveal_strlit("");
        assert(open + ""@ =~= open);
    }
    let mut i: usize = 0;
    while i < s.len()
        invariant
            i <= s.len(),
            open == "["@,
            text@ == open + separated(s@.take(i as int)),
        decreases s.len() - i,
    {
        let ghost before = text@;
        if i > 0 {
            text.append(", ");
        }
        let number = signed_text(s[i]);
        text.append(number.as_str());
        proof {
            let part = s@.take(i + 1);
            assert(part.drop_last() =~= s@.take(i as int));
            if i == 0 {
                assert(s@.take(0).len() == 0);
                reveal_strlit("");
                assert(text@ =~= open + signed(s@[0] as int));
            } else {
                assert(text@ =~= open + separated(part));
            }
        }
        i += 1;
    }
    assert(s@.take(i as int) =~= s@);
    text.append("]");
    text
}

/// The number that decimal digits stand for.
pub open spec fn number_of(s: Seq<char>) -> int
    decreases s.len(),
{
    if s.len() == 0 {
        0
    } else {
        number_of(s.drop_last()) * 10 + (s.last() as int - '0' as int)
    }
}

/// A digit.
proof fn lemma_digit(d: int)
    requires
        0 <= d < 10,
    ensures
        digit(d).len() == 1,
        digit(d)[0] as int == '0' as int + d,
{
    reveal_strlit("0");
    reveal_strlit("1");
    reveal_strlit("2");
    reveal_strlit("3");
    reveal_strlit("4");
    reveal_strlit("5");
    reveal_strlit("6");
    reveal_strlit("7");
    reveal_strlit("8");
    reveal_strlit("9");
}

/// The decimal notation of a number holds digits only, stands for the number, and does not
/// start with a zero but for the number zero.
pub proof fn lemma_decimal(n: nat)
    ensures
        number_of(decimal(n)) == n,
        decimal(n).len() >= 1,
        forall|i: int|
            0 <= i < decimal(n).len() ==> '0' as int <= (#[trigger] decimal(n)[i]) as int
                <= '9' as int,
        n > 0 ==> decimal(n)[0] != '0',
    decreases n,
{
    lemma_digit((n % 10) as int);
    let last = digit((n % 10) as int);
    if n < 10 {
        assert(decimal(n).drop_last() =~= Seq::<char>::empty());
        assert(number_of(decimal(n).drop_last()) == 0);
    } else {
        lemma_decimal(n / 10);
        assert(decimal(n).drop_last() =~= decimal(n / 10));
        assert(decimal(n).last() == last[0]);
        assert forall|i: int| 0 <= i < decimal(n).len() implies '0' as int <= (#[trigger] decimal(
            n,
        )[i]) as int <= '9' as int by {
            if i < decimal(n / 10).len() {
                assert(decimal(n)[i] == decimal(n / 10)[i]);
            } else {
                assert(decimal(n)[i] == last[0]);
            }
        }
    }
}

} // verus!
