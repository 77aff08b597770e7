//! Building and copying text.

use vstd::prelude::*;
use vstd::string::*;

verus! {

/// The characters of a text.
pub type Text = Seq<char>;

/// The texts of a sequence of strings.
pub open spec fn texts(strings: Seq<String>) -> Seq<Text> {
    strings.map_values(|s: String| s@)
}

/// The decimal digit of value `n`.
pub open spec fn digit(n: nat) -> char {
    ('0' as nat + n) as char
}

/// The decimal notation of a natural number, without leading zeros.
pub open spec fn decimal(n: nat) -> Text
    decreases n,
{
    if n < 10 {
        seq![digit(n)]
    } else {
        decimal(n / 10).push(digit(n % 10))
    }
}

/// The decimal notation of an integer, with a minus sign in front of a negative one.
pub open spec fn signed_decimal(n: int) -> Text {
    if n < 0 {
        seq!['-'] + decimal((-n) as nat)
    } else {
        decimal(n as nat)
    }
}

/// The number that digits stand for.
pub open spec fn value_of(digits: Text) -> int
    decreases digits.len(),
{
    if digits.len() == 0 {
        0
    } else {
        10 * value_of(digits.drop_last()) + (digits.last() as int - '0' as int)
    }
}

/// The decimal notation of a number consists of digits that stand for the number, at least
/// one, and begins with zero only where that is all.
pub proof fn law_decimal(n: nat)
    ensures
        decimal(n).len() >= 1,
        forall|i: int| 0 <= i < decimal(n).len() ==> '0' <= #[trigger] decimal(n)[i] <= '9',
        value_of(decimal(n)) == n,
        decimal(n)[0] == '0' ==> decimal(n).len() == 1,
    decreases n,
{
    reveal_with_fuel(value_of, 2);
    if n < 10 {
        assert(decimal(n).drop_last() =~= Seq::empty());
        assert(decimal(n).last() == digit(n));
    } else {
        law_decimal(n / 10);
        assert(decimal(n).drop_last() =~= decimal(n / 10));
        assert(decimal(n).last() == digit(n % 10));
        if decimal(n / 10)[0] == '0' {
            assert(decimal(n / 10).drop_last() =~= Seq::empty());
            assert(decimal(n / 10).last() == '0');
        }
    }
}

/// A negative number has a minus sign and the notation of the number without its sign; any
/// other has the notation of a natural number.
pub proof fn law_signed_decimal(n: int)
    ensures
        n < 0 ==> signed_decimal(n).len() >= 1 && signed_decimal(n)[0] == '-'
            && signed_decimal(n).skip(1) == decimal((-n) as nat),
        n >= 0 ==> signed_decimal(n) == decimal(n as nat),
{
    if n < 0 {
        assert(signed_decimal(n).skip(1) =~= decimal((-n) as nat));
    }
}

/// The text of a single digit.
fn digit_text(n: u64) -> (r: &'static str)
    requires
        n < 10,
    ensures
        r@ == seq![digit(n as nat)],
{
    proof {
        reveal_strlit("0");
        reveal_strlit("1");
        reveal_strlit("2");
        reveal_strlit("3");
        reveal_strlit("4");
        reveal_strlit("5");
        reveal_strlit("6");
        reveal_strlit("7");
        reveal_strlit("8");
        reveal_strlit("9");
    }
    match n {
        0 => "0",
        1 => "1",
        2 => "2",
        3 => "3",
        4 => "4",
        5 => "5",
        6 => "6",
        7 => "7",
        8 => "8",
        _ => "9",
    }
}

/// Writes a natural number in decimal notation.
pub fn decimal_text(n: u64) -> (r: String)
    ensures
        r@ == decimal(n as nat),
    decreases n,
{
    if n < 10 {
        String::from_str(digit_text(n))
    } else {
        let mut r = decimal_text(n / 10);
        r.append(digit_text(n % 10));
        r
    }
}

/// Writes an integer in decimal notation.
pub fn signed_decimal_text(n: i32) -> (r: String)
    ensures
        r@ == signed_decimal(n as int),
{
    if n < 0 {
        proof {
            reveal_strlit("-");
        }
        let magnitude: u64 = (-(n as i64)) as u64;
        let mut r = String::from_str("-");
        r.append(decimal_text(magnitude).as_str());
        r
    } else {
        decimal_text(n as u64)
    }
}

/// Lists the characters of a text.
pub fn chars_of(text: &str) -> (r: Vec<char>)
    ensures
        r@ == text@,
{
    let mut r: Vec<char> = Vec::new();
    for c in iter: text.chars()
        invariant
            r@ == iter.seq().take(iter.index()),
            iter.seq() == text@,
    {
        r.push(c);
        assert(iter.seq().take(iter.index() + 1) =~= iter.seq().take(iter.index()).push(c));
    }
    assert(text@.take(r@.len() as int) =~= text@);
    r
}

/// Copies a list of strings.
pub fn copy_texts(strings: &Vec<String>) -> (r: Vec<String>)
    ensures
        texts(r@) == texts(strings@),
{
    let r = strings.clone();
    assert(texts(r@) =~= texts(strings@));
    r
}

/// Whether `i` is the first place at which a text stands in a list.
pub open spec fn is_first(list: Seq<Text>, wanted: Text, i: int) -> bool {
    &&& 0 <= i < list.len()
    &&& list[i] == wanted
    &&& forall|j: int| 0 <= j < i ==> list[j] != wanted
}

/// The first place at which a text stands in a list.
pub open spec fn first_index(list: Seq<Text>, wanted: Text) -> Option<int> {
    if exists|i: int| is_first(list, wanted, i) {
        Some(choose|i: int| is_first(list, wanted, i))
    } else {
        None
    }
}

/// Only one place is the first.
pub proof fn lemma_first_unique(list: Seq<Text>, wanted: Text, i: int)
    requires
        is_first(list, wanted, i),
    ensures
        first_index(list, wanted) == Some(i),
{
    let k = choose|k: int| is_first(list, wanted, k);
    assert(is_first(list, wanted, k));
    if k < i {
        assert(list[k] != wanted);
    }
    if i < k {
        assert(list[i] != wanted);
    }
}

/// A text has a first place exactly where it occurs.
pub proof fn lemma_first_index(list: Seq<Text>, wanted: Text)
    ensures
        first_index(list, wanted) is Some <==> list.contains(wanted),
        first_index(list, wanted) matches Some(i) ==> is_first(list, wanted, i),
{
    if list.contains(wanted) {
        let i = choose|i: int| 0 <= i < list.len() && list[i] == wanted;
        lemma_first_exists(list, wanted, i);
    }
    if first_index(list, wanted) is Some {
        let i = choose|i: int| is_first(list, wanted, i);
        assert(is_first(list, wanted, i));
        assert(list[i] == wanted);
    }
}

/// Where a text stands somewhere, it stands somewhere first.
proof fn lemma_first_exists(list: Seq<Text>, wanted: Text, i: int)
    requires
        0 <= i < list.len(),
        list[i] == wanted,
    ensures
        first_index(list, wanted) is Some,
    decreases i,
{
    if exists|j: int| 0 <= j < i && list[j] == wanted {
        let j = choose|j: int| 0 <= j < i && list[j] == wanted;
        lemma_first_exists(list, wanted, j);
    } else {
        assert(is_first(list, wanted, i));
    }
}

/// Finds where a text stands in a list of strings.
pub fn position(strings: &Vec<String>, wanted: &String) -> (r: Option<usize>)
    ensures
        match r {
            Some(i) => i < strings.len() && texts(strings@)[i as int] == wanted@ && forall|j: int|
                0 <= j < i ==> texts(strings@)[j] != wanted@,
            None => !texts(strings@).contains(wanted@),
        },
{
    let mut i: usize = 0;
    while i < strings.len()
        invariant
            i <= strings.len(),
            forall|j: int| 0 <= j < i ==> texts(strings@)[j] != wanted@,
        decreases strings.len() - i,
    {
        if strings[i] == *wanted {
            return Some(i);
        }
        i = i + 1;
    }
    None
}

} // verus!
