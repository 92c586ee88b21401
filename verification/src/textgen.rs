//! Verified text building blocks: decimal numbers, user and group
//! mentions, and joining lines with a separator.

use vstd::prelude::*;
use vstd::string::StringExecFns;

verus! {

/// The character for one decimal digit.
pub open spec fn digit_char(d: int) -> char {
    if d == 0 {
        '0'
    } else if d == 1 {
        '1'
    } else if d == 2 {
        '2'
    } else if d == 3 {
        '3'
    } else if d == 4 {
        '4'
    } else if d == 5 {
        '5'
    } else if d == 6 {
        '6'
    } else if d == 7 {
        '7'
    } else if d == 8 {
        '8'
    } else {
        '9'
    }
}

/// The decimal rendering of a nonnegative number, without leading zeroes
/// (a single `'0'` for zero).
pub open spec fn dec_str(n: int) -> Seq<char>
    decreases n,
{
    if n < 10 {
        seq![digit_char(n)]
    } else {
        dec_str(n / 10).push(digit_char(n % 10))
    }
}

/// The mention text for a user identity: `<@` then the id then `>`.
pub open spec fn user_mention(id: int) -> Seq<char> {
    seq!['<', '@'] + dec_str(id) + seq!['>']
}

/// The mention text for a group identity: `<@&` then the id then `>`.
pub open spec fn group_mention(id: int) -> Seq<char> {
    seq!['<', '@', '&'] + dec_str(id) + seq!['>']
}

/// `items` joined by `sep`: nothing for an empty list, otherwise every
/// item with `sep` between neighbours.
pub open spec fn joined(items: Seq<Seq<char>>, sep: Seq<char>) -> Seq<char>
    decreases items.len(),
{
    if items.len() == 0 {
        Seq::empty()
    } else if items.len() == 1 {
        items[0]
    } else {
        joined(items.drop_last(), sep) + sep + items.last()
    }
}

/// The views of a list of strings.
pub open spec fn views_of(items: Seq<String>) -> Seq<Seq<char>> {
    items.map_values(|s: String| s@)
}

fn digit_str(d: u64) -> (r: &'static str)
    requires
        d < 10,
    ensures
        r@ =~= seq![digit_char(d as int)],
{
    proof {
        reveal_strlit("0");
        reveal_strlit("1");
        reveal_strlit("2");
        reveal_strlit("3");
        reveal_strlit("4");
        reveal_strlit("5");
        reveal_strlit("6");
        reveal_strlit("7");
        reveal_strlit("8");
        reveal_strlit("9");
    }
    if d == 0 {
        "0"
    } else if d == 1 {
        "1"
    } else if d == 2 {
        "2"
    } else if d == 3 {
        "3"
    } else if d == 4 {
        "4"
    } else if d == 5 {
        "5"
    } else if d == 6 {
        "6"
    } else if d == 7 {
        "7"
    } else if d == 8 {
        "8"
    } else {
        "9"
    }
}

/// The decimal text of a number.
pub fn u64_string(n: u64) -> (r: String)
    ensures
        r@ == dec_str(n as int),
    decreases n,
{
    if n < 10 {
        let mut s = String::new();
        s.append(digit_str(n));
        proof {
            assert(s@ =~= dec_str(n as int));
        }
        s
    } else {
        let mut s = u64_string(n / 10);
        s.append(digit_str(n % 10));
        proof {
            assert(s@ =~= dec_str(n as int));
        }
        s
    }
}

/// The mention text of a user identity.
pub fn user_mention_string(id: u64) -> (r: String)
    ensures
        r@ == user_mention(id as int),
{
    proof {
        reveal_strlit("<@");
        reveal_strlit(">");
    }
    let mut s = String::new();
    s.append("<@");
    let digits = u64_string(id);
    s.append(digits.as_str());
    s.append(">");
    proof {
        assert(s@ =~= user_mention(id as int));
    }
    s
}

/// The mention text of a group identity.
pub fn group_mention_string(id: u64) -> (r: String)
    ensures
        r@ == group_mention(id as int),
{
    proof {
        reveal_strlit("<@&");
        reveal_strlit(">");
    }
    let mut s = String::new();
    s.append("<@&");
    let digits = u64_string(id);
    s.append(digits.as_str());
    s.append(">");
    proof {
        assert(s@ =~= group_mention(id as int));
    }
    s
}

/// `items` joined by `sep`.
pub fn join(items: &Vec<String>, sep: &str) -> (r: String)
    ensures
        r@ == joined(views_of(items@), sep@),
{
    let mut s = String::new();
    let mut i: usize = 0;
    while i < items.len()
        invariant
            i <= items.len(),
            s@ == joined(views_of(items@.take(i as int)), sep@),
        decreases items.len() - i,
    {
        if i > 0 {
            s.append(sep);
        }
        s.append(items[i].as_str());
        proof {
            let vs = views_of(items@.take(i + 1));
            assert(vs.drop_last() =~= views_of(items@.take(i as int)));
            assert(vs.last() == items@[i as int]@);
            if i == 0 {
                assert(s@ =~= vs[0]);
                assert(vs.len() == 1);
            }
            assert(s@ == joined(vs, sep@));
        }
        i = i + 1;
    }
    proof {
        assert(items@.take(items@.len() as int) =~= items@);
        assert(views_of(items@.take(items@.len() as int)) =~= views_of(items@));
    }
    s
}

} // verus!
