//! Decimal text, and the texts that messages are put together from.

use vstd::prelude::*;
use vstd::string::*;

verus! {

/// The decimal digit that stands for `d`, which is below ten.
pub open spec fn digit(d: nat) -> char {
    (48 + d) as char
}

/// The decimal numeral of `n`, without leading zeros.
pub open spec fn decimal(n: nat) -> Seq<char>
    decreases n,
{
    if n < 10 {
        seq![digit(n)]
    } else {
        decimal(n / 10).push(digit(n % 10))
    }
}

/// The digit `d` as a string of its own.
fn digit_text(d: u64) -> (text: &'static str)
    requires
        d < 10,
    ensures
        text@ == seq![digit(d as nat)],
{
    proof {
        reveal_strlit("0");
        reveal_strlit("1");
        reveal_strlit("2");
        reveal_strlit("3");
        reveal_strlit("4");
        reveal_strlit("5");
        reveal_strlit("6");
        reveal_strlit("7");
        reveal_strlit("8");
        reveal_strlit("9");
    }
    let text = if d == 0 {
        "0"
    } else if d == 1 {
        "1"
    } else if d == 2 {
        "2"
    } else if d == 3 {
        "3"
    } else if d == 4 {
        "4"
    } else if d == 5 {
        "5"
    } else if d == 6 {
        "6"
    } else if d == 7 {
        "7"
    } else if d == 8 {
        "8"
    } else {
        "9"
    };
    assert(text@ =~= seq![digit(d as nat)]);
    text
}

/// Writes `n` in decimal.
pub fn decimal_u64(n: u64) -> (text: String)
    ensures
        text@ == decimal(n as nat),
    decreases n,
{
    if n < 10 {
        digit_text(n).to_owned()
    } else {
        let mut text = decimal_u64(n / 10);
        text.append(digit_text(n % 10));
        assert(text@ =~= decimal((n / 10) as nat).push(digit((n % 10) as nat)));
        text
    }
}

/// The text `head`, a colon and a blank, then `tail`.
pub open spec fn colon_joined(head: Seq<char>, tail: Seq<char>) -> Seq<char> {
    head + ": "@ + tail
}

/// Joins two texts by a colon and a blank.
pub fn join_with_colon(head: &str, tail: &str) -> (text: String)
    ensures
        text@ == colon_joined(head@, tail@),
{
    let mut text = head.to_owned();
    text.append(": ");
    text.append(tail);
    text
}

/// A joined text begins with the one text and ends with the other, whole, and a colon and a blank
/// stand between them.
pub proof fn law_colon_joined(head: Seq<char>, tail: Seq<char>)
    ensures
        ({
            let text = colon_joined(head, tail);
            &&& text.len() == head.len() + 2 + tail.len()
            &&& text.subrange(0, head.len() as int) == head
            &&& text[head.len() as int] == ':'
            &&& text[head.len() as int + 1] == ' '
            &&& text.subrange(head.len() as int + 2, text.len() as int) == tail
        }),
{
    reveal_strlit(": ");
    let text = colon_joined(head, tail);
    assert(text.subrange(0, head.len() as int) =~= head);
    assert(text.subrange(head.len() as int + 2, text.len() as int) =~= tail);
}

} // verus!
