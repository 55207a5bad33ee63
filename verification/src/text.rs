//! Small operations on strings.

use vstd::prelude::*;
use vstd::string::{StrSliceExecFns, StringExecFns};

verus! {

/// Whether two strings hold the same characters.
pub fn same_text(a: &str, b: &str) -> (r: bool)
    ensures
        r == (a@ == b@),
{
    a.to_owned() == b.to_owned()
}

/// A character, with capital ASCII letters made small.
pub open spec fn ascii_lower(c: char) -> char {
    if 'A' <= c && c <= 'Z' {
        (c as u32 + 32) as char
    } else {
        c
    }
}

/// The digit of a number below ten.
pub open spec fn digit(n: nat) -> char {
    (n + 48) as char
}

/// A number in decimal notation.
pub open spec fn decimal(n: nat) -> Seq<char>
    decreases n,
{
    if n < 10 {
        seq![digit(n)]
    } else {
        decimal(n / 10).push(digit(n % 10))
    }
}

fn digit_text(n: usize) -> (r: &'static str)
    requires
        n < 10,
    ensures
        r@ == seq![digit(n as nat)],
{
    proof {
        reveal_strlit("0");
        reveal_strlit("1");
        reveal_strlit("2");
        reveal_strlit("3");
        reveal_strlit("4");
        reveal_strlit("5");
        reveal_strlit("6");
        reveal_strlit("7");
        reveal_strlit("8");
        reveal_strlit("9");
    }
    let text = match n {
        0 => "0",
        1 => "1",
        2 => "2",
        3 => "3",
        4 => "4",
        5 => "5",
        6 => "6",
        7 => "7",
        8 => "8",
        _ => "9",
    };
    assert(text@ =~= seq![digit(n as nat)]);
    text
}

/// Writes a number behind a text.
pub fn append_decimal(text: &mut String, n: usize)
    ensures
        final(text)@ == old(text)@ + decimal(n as nat),
    decreases n,
{
    if n >= 10 {
        append_decimal(text, n / 10);
    }
    text.append(digit_text(n % 10));
    assert(text@ =~= old(text)@ + decimal(n as nat));
}

/// Different numbers have different notations.
pub proof fn lemma_decimal_is_injective(a: nat, b: nat)
    requires
        decimal(a) == decimal(b),
    ensures
        a == b,
    decreases a,
{
    assert(decimal(a).last() == digit(a % 10)) by {
        if a < 10 {
            assert(a % 10 == a);
        }
    }
    assert(decimal(b).last() == digit(b % 10)) by {
        if b < 10 {
            assert(b % 10 == b);
        }
    }
    assert(a % 10 == b % 10);
    lemma_decimal_is_not_empty(a / 10);
    lemma_decimal_is_not_empty(b / 10);
    if a >= 10 && b >= 10 {
        assert(decimal(a).drop_last() =~= decimal(a / 10));
        assert(decimal(b).drop_last() =~= decimal(b / 10));
        lemma_decimal_is_injective(a / 10, b / 10);
    }
}

proof fn lemma_decimal_is_not_empty(n: nat)
    ensures
        decimal(n).len() > 0,
{
}

/// A text begins with another.
pub open spec fn begins_with(text: Seq<char>, start: Seq<char>) -> bool {
    start.len() <= text.len() && text.take(start.len() as int) == start
}

/// Whether the text from a place on begins with another.
pub fn begins_at(text: &str, at: usize, start: &str) -> (r: bool)
    requires
        at <= text@.len(),
    ensures
        r == begins_with(text@.skip(at as int), start@),
{
    let rest = text.substring_char(at, text.unicode_len());
    let count = start.unicode_len();
    assert(rest@ =~= text@.skip(at as int));
    if rest.unicode_len() < count {
        return false;
    }
    let head = rest.substring_char(0, count);
    assert(head@ =~= rest@.take(count as int));
    same_text(head, start)
}

/// A text with every occurrence of another replaced, found from the left and not overlapping.
pub open spec fn replaced(text: Seq<char>, from: Seq<char>, to: Seq<char>) -> Seq<char>
    decreases text.len(),
{
    if text.len() == 0 || from.len() == 0 {
        text
    } else if begins_with(text, from) {
        to + replaced(text.skip(from.len() as int), from, to)
    } else {
        seq![text[0]] + replaced(text.skip(1), from, to)
    }
}

/// Replaces every occurrence of a text.
pub fn replace_all(text: &str, from: &str, to: &str) -> (r: String)
    requires
        from@.len() > 0,
    ensures
        r@ == replaced(text@, from@, to@),
{
    let count = text.unicode_len();
    let step = from.unicode_len();
    let mut done: String = String::new();
    let mut i: usize = 0;
    assert(text@.skip(0) =~= text@);
    assert(done@ + replaced(text@, from@, to@) =~= replaced(text@, from@, to@));
    while i < count
        invariant
            count == text@.len(),
            step == from@.len(),
            step > 0,
            i <= count,
            done@ + replaced(text@.skip(i as int), from@, to@) == replaced(text@, from@, to@),
        decreases count - i,
    {
        let ghost before = done@;
        let ghost rest = text@.skip(i as int);
        if begins_at(text, i, from) {
            done.append(to);
            assert(rest.skip(step as int) =~= text@.skip(i + step));
            assert(done@ + replaced(text@.skip(i + step), from@, to@) =~= before + (to@ + replaced(
                text@.skip(i + step),
                from@,
                to@,
            )));
            i = i + step;
        } else {
            done.append(text.substring_char(i, i + 1));
            assert(rest.skip(1) =~= text@.skip(i + 1));
            assert(text@.subrange(i as int, i + 1) =~= seq![rest[0]]);
            assert(done@ + replaced(text@.skip(i + 1), from@, to@) =~= before + (seq![rest[0]]
                + replaced(text@.skip(i + 1), from@, to@)));
            i = i + 1;
        }
    }
    assert(text@.skip(i as int) =~= Seq::<char>::empty());
    assert(done@ + Seq::<char>::empty() =~= done@);
    done
}

/// The number that a notation stands for, digit by digit from the left.
pub open spec fn number_of(notation: Seq<char>) -> int
    decreases notation.len(),
{
    if notation.len() == 0 {
        0
    } else {
        10 * number_of(notation.drop_last()) + (notation.last() as int - '0' as int)
    }
}

/// The notation of a number consists of digits, stands for that number, and has no zero in front of
/// others.
pub proof fn law_a_notation_stands_for_its_number(n: nat)
    ensures
        number_of(decimal(n)) == n,
        decimal(n).len() > 0,
        forall|i: int| 0 <= i < decimal(n).len() ==> '0' <= #[trigger] decimal(n)[i] <= '9',
        decimal(n).len() > 1 ==> decimal(n)[0] != '0',
    decreases n,
{
    if n < 10 {
        let one = seq![digit(n)];
        assert(one.drop_last() =~= Seq::<char>::empty());
        assert(number_of(one.drop_last()) == 0);
        assert(one.last() == digit(n));
        assert(digit(n) as int == n + 48);
    } else {
        law_a_notation_stands_for_its_number(n / 10);
        assert(digit(n % 10) as int == n % 10 + 48);
        assert(decimal(n).drop_last() =~= decimal(n / 10));
        assert(decimal(n).last() == digit(n % 10));
        if decimal(n / 10).len() == 1 {
            assert(number_of(decimal(n / 10).drop_last()) == 0);
        }
    }
}

/// Only capital letters from A to Z change, and they become the small letters of the same place in the
/// alphabet.
pub proof fn law_only_capital_letters_change(c: char)
    ensures
        'A' <= c && c <= 'Z' ==> ascii_lower(c) as int - 'a' as int == c as int - 'A' as int,
        !('A' <= c && c <= 'Z') ==> ascii_lower(c) == c,
        ascii_lower(ascii_lower(c)) == ascii_lower(c),
{
}

/// A text begins with another if and only if it is that one with something behind it.
pub proof fn law_a_beginning_is_followed_by_the_rest(text: Seq<char>, start: Seq<char>)
    ensures
        begins_with(text, start) <==> exists|rest: Seq<char>| text == #[trigger] (start + rest),
{
    if begins_with(text, start) {
        let rest = text.skip(start.len() as int);
        assert(text =~= start + rest);
    }
    if exists|rest: Seq<char>| text == #[trigger] (start + rest) {
        let rest = choose|rest: Seq<char>| text == #[trigger] (start + rest);
        assert(text.take(start.len() as int) =~= start);
    }
}

/// An occurrence at the beginning is replaced and what is behind it goes on by itself; a text in which
/// the other does not occur stays as it is; and what stands in front of the first occurrence stays.
pub proof fn law_every_occurrence_is_replaced(
    front: Seq<char>,
    from: Seq<char>,
    to: Seq<char>,
    back: Seq<char>,
)
    requires
        from.len() > 0,
    ensures
        replaced(from + back, from, to) == to + replaced(back, from, to),
        (forall|i: int| 0 <= i <= back.len() ==> !begins_with(#[trigger] back.skip(i), from))
            ==> replaced(back, from, to) == back,
        (forall|i: int|
            0 <= i < front.len() ==> !begins_with(#[trigger] (front + from + back).skip(i), from))
            ==> replaced(front + from + back, from, to) == front + to + replaced(back, from, to),
{
    assert((from + back).take(from.len() as int) =~= from);
    assert((from + back).skip(from.len() as int) =~= back);
    if forall|i: int| 0 <= i <= back.len() ==> !begins_with(#[trigger] back.skip(i), from) {
        lemma_nothing_replaced(back, from, to);
    }
    if forall|i: int|
        0 <= i < front.len() ==> !begins_with(#[trigger] (front + from + back).skip(i), from) {
        lemma_front_stays(front, from, to, back);
    }
}

proof fn lemma_nothing_replaced(text: Seq<char>, from: Seq<char>, to: Seq<char>)
    requires
        from.len() > 0,
        forall|i: int| 0 <= i <= text.len() ==> !begins_with(#[trigger] text.skip(i), from),
    ensures
        replaced(text, from, to) == text,
    decreases text.len(),
{
    if text.len() > 0 {
        assert(text.skip(0) =~= text);
        let rest = text.skip(1);
        assert forall|i: int| 0 <= i <= rest.len() implies !begins_with(
            #[trigger] rest.skip(i),
            from,
        ) by {
            assert(rest.skip(i) =~= text.skip(i + 1));
        }
        lemma_nothing_replaced(rest, from, to);
        assert(seq![text[0]] + rest =~= text);
    }
}

proof fn lemma_front_stays(front: Seq<char>, from: Seq<char>, to: Seq<char>, back: Seq<char>)
    requires
        from.len() > 0,
        forall|i: int|
            0 <= i < front.len() ==> !begins_with(#[trigger] (front + from + back).skip(i), from),
    ensures
        replaced(front + from + back, from, to) == front + to + replaced(back, from, to),
    decreases front.len(),
{
    let text = front + from + back;
    if front.len() == 0 {
        assert(text =~= from + back);
        assert((from + back).take(from.len() as int) =~= from);
        assert((from + back).skip(from.len() as int) =~= back);
        assert(front + to =~= to);
    } else {
        let rest = front.skip(1);
        assert(text.skip(0) =~= text);
        assert(text.skip(1) =~= rest + from + back);
        assert forall|i: int| 0 <= i < rest.len() implies !begins_with(
            #[trigger] (rest + from + back).skip(i),
            from,
        ) by {
            assert((rest + from + back).skip(i) =~= text.skip(i + 1));
        }
        lemma_front_stays(rest, from, to, back);
        assert(seq![text[0]] + (rest + to + replaced(back, from, to)) =~= front + to + replaced(
            back,
            from,
            to,
        ));
    }
}

} // verus!
