//! Small helpers for building messages.

use vstd::prelude::*;
use vstd::string::*;

verus! {

/// The character of a decimal digit.
pub open spec fn decimal_digit(d: nat) -> char {
    if d == 0 {
        '0'
    } else if d == 1 {
        '1'
    } else if d == 2 {
        '2'
    } else if d == 3 {
        '3'
    } else if d == 4 {
        '4'
    } else if d == 5 {
        '5'
    } else if d == 6 {
        '6'
    } else if d == 7 {
        '7'
    } else if d == 8 {
        '8'
    } else {
        '9'
    }
}

/// The decimal text of a number, without leading zeros.
pub open spec fn number_text(n: nat) -> Seq<char>
    decreases n,
{
    if n < 10 {
        seq![decimal_digit(n)]
    } else {
        number_text(n / 10).push(decimal_digit(n % 10))
    }
}

/// The texts joined, each in double quotes, with a comma and a blank
/// between them, and the whole in square brackets.
pub open spec fn quoted_list(items: Seq<Seq<char>>) -> Seq<char> {
    seq!['['] + quoted_items(items) + seq![']']
}

/// The texts joined, each in double quotes, with a comma and a blank
/// between them.
pub open spec fn quoted_items(items: Seq<Seq<char>>) -> Seq<char>
    decreases items.len(),
{
    if items.len() == 0 {
        Seq::<char>::empty()
    } else if items.len() == 1 {
        seq!['"'] + items[0] + seq!['"']
    } else {
        quoted_items(items.drop_last()) + seq![',', ' ', '"'] + items.last() + seq!['"']
    }
}

/// The views of a sequence of strings.
pub open spec fn texts(items: Seq<String>) -> Seq<Seq<char>> {
    items.map_values(|s: String| s@)
}

/// The text of one decimal digit.
fn digit_text(d: u64) -> (r: &'static str)
    requires
        d < 10,
    ensures
        r@ == seq![decimal_digit(d as nat)],
{
    proof {
        reveal_strlit("0");
        reveal_strlit("1");
        reveal_strlit("2");
        reveal_strlit("3");
        reveal_strlit("4");
        reveal_strlit("5");
        reveal_strlit("6");
        reveal_strlit("7");
        reveal_strlit("8");
        reveal_strlit("9");
    }
    let r = if d == 0 {
        "0"
    } else if d == 1 {
        "1"
    } else if d == 2 {
        "2"
    } else if d == 3 {
        "3"
    } else if d == 4 {
        "4"
    } else if d == 5 {
        "5"
    } else if d == 6 {
        "6"
    } else if d == 7 {
        "7"
    } else if d == 8 {
        "8"
    } else {
        "9"
    };
    assert(r@ =~= seq![decimal_digit(d as nat)]);
    r
}

/// Appends the decimal text of `n` to `text`.
pub fn append_number(text: &mut String, n: u64)
    ensures
        final(text)@ == old(text)@ + number_text(n as nat),
    decreases n,
{
    if n >= 10 {
        append_number(text, n / 10);
    }
    let ghost before = text@;
    text.append(digit_text(n % 10));
    proof {
        if n >= 10 {
            assert(text@ =~= old(text)@ + number_text(n as nat));
        } else {
            assert(text@ =~= old(text)@ + number_text(n as nat));
        }
    }
}

/// The decimal text of `n`.
pub fn number_to_text(n: u64) -> (r: String)
    ensures
        r@ == number_text(n as nat),
{
    let mut text = String::new();
    append_number(&mut text, n);
    assert(text@ =~= number_text(n as nat));
    text
}

/// Three texts, one after the other.
pub fn join3(a: &str, b: &str, c: &str) -> (r: String)
    ensures
        r@ == a@ + b@ + c@,
{
    let mut text = a.to_owned();
    text.append(b);
    text.append(c);
    text
}

/// Five texts, one after the other.
pub fn join5(a: &str, b: &str, c: &str, d: &str, e: &str) -> (r: String)
    ensures
        r@ == a@ + b@ + c@ + d@ + e@,
{
    let mut text = a.to_owned();
    text.append(b);
    text.append(c);
    text.append(d);
    text.append(e);
    text
}

/// The quoted list of `items`.
pub fn quoted_list_text(items: &Vec<String>) -> (r: String)
    ensures
        r@ == quoted_list(texts(items@)),
{
    let mut text = String::new();
    append_quoted_list(&mut text, items);
    assert(text@ =~= quoted_list(texts(items@)));
    text
}

/// Appends the quoted list of `items` to `text`.
pub fn append_quoted_list(text: &mut String, items: &Vec<String>)
    ensures
        final(text)@ == old(text)@ + quoted_list(texts(items@)),
{
    let ghost all = texts(items@);
    let ghost start = text@;
    text.append("[");
    let mut i: usize = 0;
    proof {
        reveal_strlit("[");
        assert(text@ =~= start + seq!['['] + quoted_items(all.subrange(0, 0)));
    }
    while i < items.len()
        invariant
            all == texts(items@),
            i <= items.len(),
            text@ == start + seq!['['] + quoted_items(all.subrange(0, i as int)),
        decreases items.len() - i,
    {
        let ghost before = text@;
        if i > 0 {
            text.append(", ");
        }
        text.append("\"");
        text.append(items[i].as_str());
        text.append("\"");
        proof {
            reveal_strlit(", ");
            reveal_strlit("\"");
            let next = all.subrange(0, i + 1);
            assert(next.drop_last() =~= all.subrange(0, i as int));
            assert(next.last() == items@[i as int]@);
            if i > 0 {
                assert(text@ =~= before + seq![',', ' ', '"'] + items@[i as int]@ + seq!['"']);
            } else {
                assert(text@ =~= before + seq!['"'] + items@[i as int]@ + seq!['"']);
            }
            assert(text@ =~= start + seq!['['] + quoted_items(next));
        }
        i = i + 1;
    }
    text.append("]");
    proof {
        reveal_strlit("]");
        assert(all.subrange(0, i as int) =~= all);
        assert(text@ =~= start + quoted_list(all));
    }
}

} // verus!
