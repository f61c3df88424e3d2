//! Text as the protocol handles it: joined, compared, taken apart, put in
//! order, and numbers written in decimal.

use vstd::prelude::*;
use vstd::string::*;

verus! {

/// What is left of `text` behind `prefix`, where it begins with it.
pub open spec fn stripped(text: Seq<char>, prefix: Seq<char>) -> Option<Seq<char>> {
    if prefix.is_prefix_of(text) {
        Some(text.skip(prefix.len() as int))
    } else {
        None
    }
}

/// `text` parted at its last `mark`, where it has one: what stands before
/// it and what stands behind it.
pub open spec fn parted_at_last(text: Seq<char>, mark: char) -> Option<(Seq<char>, Seq<char>)>
    decreases text.len(),
{
    if text.len() == 0 {
        None
    } else if text.last() == mark {
        Some((text.drop_last(), Seq::empty()))
    } else {
        match parted_at_last(text.drop_last(), mark) {
            Some((before, behind)) => Some((before, behind.push(text.last()))),
            None => None,
        }
    }
}

/// The digit that stands for `value`.
pub open spec fn digit(value: nat) -> char {
    (48 + value) as char
}

/// `number` in decimal, without leading zeros.
pub open spec fn decimal(number: nat) -> Seq<char>
    decreases number,
{
    if number < 10 {
        seq![digit(number)]
    } else {
        decimal(number / 10).push(digit(number % 10))
    }
}

/// An ASCII capital as its small letter, any other character as it is.
pub open spec fn small(c: char) -> char {
    if 'A' <= c && c <= 'Z' {
        ((c as u8) + 32) as char
    } else {
        c
    }
}

/// Whether two texts are the same but for the case of ASCII letters.
pub open spec fn same_but_for_case(a: Seq<char>, b: Seq<char>) -> bool {
    a.map_values(|c: char| small(c)) == b.map_values(|c: char| small(c))
}

/// Whether `a` comes before `b` in the order of their characters.
pub open spec fn precedes(a: Seq<char>, b: Seq<char>) -> bool
    decreases a.len(),
{
    if b.len() == 0 {
        false
    } else if a.len() == 0 {
        true
    } else if a[0] != b[0] {
        a[0] < b[0]
    } else {
        precedes(a.drop_first(), b.drop_first())
    }
}

/// The last mark of a text that ends in one and a tail without any is that
/// one.
pub proof fn lemma_parted_at_last(before: Seq<char>, mark: char, behind: Seq<char>)
    requires
        !behind.contains(mark),
    ensures
        parted_at_last(before.push(mark) + behind, mark) == Some((before, behind)),
    decreases behind.len(),
{
    let text = before.push(mark) + behind;
    if behind.len() == 0 {
        assert(text == before.push(mark));
        assert(text.drop_last() == before);
        assert(behind == Seq::<char>::empty());
    } else {
        let shorter = behind.drop_last();
        assert(behind[behind.len() - 1] == behind.last());
        assert forall|c: char| shorter.contains(c) implies behind.contains(c) by {
            let i = choose|i: int| 0 <= i < shorter.len() && shorter[i] == c;
            assert(behind[i] == c);
        }
        lemma_parted_at_last(before, mark, shorter);
        assert(text.drop_last() == before.push(mark) + shorter);
        assert(shorter.push(behind.last()) == behind);
    }
}

/// What a text is parted into are its two pieces, the second without the
/// mark.
pub proof fn lemma_parts_at_last(text: Seq<char>, mark: char)
    ensures
        match parted_at_last(text, mark) {
            Some((before, behind)) => text == before.push(mark) + behind && !behind.contains(mark),
            None => !text.contains(mark),
        },
    decreases text.len(),
{
    if text.len() > 0 {
        assert(text == text.drop_last().push(text.last()));
        if text.last() == mark {
            assert(text == text.drop_last().push(mark) + Seq::<char>::empty());
        } else {
            lemma_parts_at_last(text.drop_last(), mark);
            match parted_at_last(text.drop_last(), mark) {
                Some((before, behind)) => {
                    assert(text == before.push(mark) + behind.push(text.last()));
                    assert forall|i: int| 0 <= i < behind.len() + 1 implies behind.push(text.last())[i] != mark by {
                        if i < behind.len() {
                            assert(behind[i] == behind.push(text.last())[i]);
                        }
                    }
                },
                None => {
                    assert forall|i: int| 0 <= i < text.len() implies text[i] != mark by {
                        if i < text.len() - 1 {
                            assert(text.drop_last()[i] == text[i]);
                        }
                    }
                },
            }
        }
    }
}

/// Every character of a number in decimal is a digit.
pub proof fn lemma_decimal_digits(number: nat)
    ensures
        decimal(number).len() > 0,
        forall|i: int| 0 <= i < decimal(number).len() ==> '0' <= #[trigger] decimal(number)[i] <= '9',
    decreases number,
{
    if number >= 10 {
        lemma_decimal_digits(number / 10);
    }
}

/// Two numbers with the same decimal are one.
pub proof fn lemma_decimal_injective(a: nat, b: nat)
    requires
        decimal(a) == decimal(b),
    ensures
        a == b,
    decreases a,
{
    lemma_decimal_digits(a);
    lemma_decimal_digits(b);
    assert(decimal(a).last() == digit(a % 10));
    assert(decimal(b).last() == digit(b % 10));
    if a >= 10 && b >= 10 {
        assert(decimal(a).drop_last() == decimal(a / 10));
        assert(decimal(b).drop_last() == decimal(b / 10));
        lemma_decimal_injective(a / 10, b / 10);
    } else if a >= 10 {
        lemma_decimal_digits(a / 10);
        assert(decimal(a).len() >= 2);
    } else if b >= 10 {
        lemma_decimal_digits(b / 10);
        assert(decimal(b).len() >= 2);
    }
}

/// No text comes before itself.
pub proof fn lemma_precedes_irreflexive(a: Seq<char>)
    ensures
        !precedes(a, a),
    decreases a.len(),
{
    if a.len() > 0 {
        lemma_precedes_irreflexive(a.drop_first());
    }
}

/// What comes before what comes before a text comes before it.
pub proof fn lemma_precedes_transitive(a: Seq<char>, b: Seq<char>, c: Seq<char>)
    requires
        precedes(a, b),
        precedes(b, c),
    ensures
        precedes(a, c),
    decreases a.len(),
{
    if a.len() > 0 && a[0] == b[0] && b[0] == c[0] {
        lemma_precedes_transitive(a.drop_first(), b.drop_first(), c.drop_first());
    }
}

/// Of two different texts one comes before the other.
pub proof fn lemma_precedes_total(a: Seq<char>, b: Seq<char>)
    ensures
        a == b || precedes(a, b) || precedes(b, a),
    decreases a.len(),
{
    if a.len() > 0 && b.len() > 0 && a[0] == b[0] {
        lemma_precedes_total(a.drop_first(), b.drop_first());
        if a.drop_first() == b.drop_first() {
            assert(a == seq![a[0]] + a.drop_first());
            assert(b == seq![b[0]] + b.drop_first());
        }
    } else if a.len() == 0 && b.len() == 0 {
        assert(a == b);
    }
}

/// The characters of `text`, one by one.
pub fn characters(text: &str) -> (chars: Vec<char>)
    ensures
        chars@ == text@,
{
    let mut chars: Vec<char> = Vec::new();
    for c in it: text.chars()
        invariant
            it.seq() == text@,
            chars@ == text@.take(it.index() as int),
    {
        chars.push(c);
    }
    assert(text@.take(text@.len() as int) == text@);
    chars
}

/// `first`, then `second`.
pub fn joined(first: &str, second: &str) -> (text: String)
    ensures
        text@ == first@ + second@,
{
    let mut text = first.to_string();
    text.append(second);
    text
}

/// Whether two texts are the same.
pub fn same(a: &str, b: &str) -> (yes: bool)
    ensures
        yes == (a@ == b@),
{
    a.to_string() == b.to_string()
}

/// What is left of `text` behind `prefix`, where it begins with it.
pub fn strip<'a>(text: &'a str, prefix: &str) -> (rest: Option<&'a str>)
    ensures
        match rest {
            Some(rest) => stripped(text@, prefix@) == Some(rest@),
            None => stripped(text@, prefix@) is None,
        },
{
    let all = characters(text);
    let head = characters(prefix);
    if head.len() > all.len() {
        return None;
    }
    let mut i: usize = 0;
    while i < head.len()
        invariant
            i <= head.len() <= all.len(),
            all@ == text@,
            head@ == prefix@,
            forall|j: int| 0 <= j < i ==> all@[j] == head@[j],
        decreases head.len() - i,
    {
        if all[i] != head[i] {
            assert(prefix@[i as int] != text@[i as int]);
            return None;
        }
        i = i + 1;
    }
    Some(text.substring_char(head.len(), all.len()))
}

/// `text` parted at its last `mark`, where it has one.
pub fn part_at_last(text: &str, mark: char) -> (parts: Option<(&str, &str)>)
    ensures
        match parts {
            Some((before, behind)) => parted_at_last(text@, mark) == Some((before@, behind@)),
            None => parted_at_last(text@, mark) is None,
        },
{
    let all = characters(text);
    let mut i: usize = all.len();
    while i > 0
        invariant
            i <= all.len(),
            all@ == text@,
            forall|j: int| i <= j < all.len() ==> all@[j] != mark,
        decreases i,
    {
        if all[i - 1] == mark {
            let before = text.substring_char(0, i - 1);
            let behind = text.substring_char(i, all.len());
            proof {
                lemma_parted_at_last(before@, mark, behind@);
                assert(before@.push(mark) + behind@ == text@);
            }
            return Some((before, behind));
        }
        i = i - 1;
    }
    proof {
        lemma_parts_at_last(text@, mark);
        if let Some((before, behind)) = parted_at_last(text@, mark) {
            assert(text@[before.len() as int] == mark);
        }
    }
    None
}

/// `value` as its digit.
fn digit_text(value: usize) -> (text: &'static str)
    requires
        value < 10,
    ensures
        text@ == seq![digit(value as nat)],
{
    proof {
        reveal_strlit("0");
        reveal_strlit("1");
        reveal_strlit("2");
        reveal_strlit("3");
        reveal_strlit("4");
        reveal_strlit("5");
        reveal_strlit("6");
        reveal_strlit("7");
        reveal_strlit("8");
        reveal_strlit("9");
    }
    match value {
        0 => "0",
        1 => "1",
        2 => "2",
        3 => "3",
        4 => "4",
        5 => "5",
        6 => "6",
        7 => "7",
        8 => "8",
        _ => "9",
    }
}

/// `number` in decimal.
pub fn in_decimal(number: usize) -> (text: String)
    ensures
        text@ == decimal(number as nat),
    decreases number,
{
    if number < 10 {
        digit_text(number).to_string()
    } else {
        let mut text = in_decimal(number / 10);
        text.append(digit_text(number % 10));
        assert(decimal(number as nat) == decimal(number as nat / 10) + seq![digit(number as nat % 10)]);
        text
    }
}

/// An ASCII capital as its small letter, any other character as it is.
fn in_small(c: char) -> (r: char)
    ensures
        r == small(c),
{
    if 'A' <= c && c <= 'Z' {
        ((c as u8) + 32) as char
    } else {
        c
    }
}

/// Whether two texts are the same but for the case of ASCII letters.
pub fn alike(a: &str, b: &str) -> (yes: bool)
    ensures
        yes == same_but_for_case(a@, b@),
{
    let a_chars = characters(a);
    let b_chars = characters(b);
    let ghost a_small = a@.map_values(|c: char| small(c));
    let ghost b_small = b@.map_values(|c: char| small(c));
    if a_chars.len() != b_chars.len() {
        assert(a_small.len() != b_small.len());
        return false;
    }
    let mut i: usize = 0;
    while i < a_chars.len()
        invariant
            i <= a_chars.len() == b_chars.len(),
            a_chars@ == a@,
            b_chars@ == b@,
            a_small == a@.map_values(|c: char| small(c)),
            b_small == b@.map_values(|c: char| small(c)),
            forall|j: int| 0 <= j < i ==> a_small[j] == b_small[j],
        decreases a_chars.len() - i,
    {
        if in_small(a_chars[i]) != in_small(b_chars[i]) {
            assert(a_small[i as int] != b_small[i as int]);
            return false;
        }
        i = i + 1;
    }
    assert(a_small == b_small);
    true
}

/// Whether `a` comes before `b` in the order of their characters.
pub fn comes_before(a: &str, b: &str) -> (yes: bool)
    ensures
        yes == precedes(a@, b@),
{
    let a_chars = characters(a);
    let b_chars = characters(b);
    let mut i: usize = 0;
    assert(a@.skip(0) == a@);
    assert(b@.skip(0) == b@);
    while i < a_chars.len() && i < b_chars.len()
        invariant
            i <= a_chars.len(),
            i <= b_chars.len(),
            a_chars@ == a@,
            b_chars@ == b@,
            precedes(a@, b@) == precedes(a@.skip(i as int), b@.skip(i as int)),
        decreases a_chars.len() - i,
    {
        if a_chars[i] != b_chars[i] {
            return a_chars[i] < b_chars[i];
        }
        assert(a@.skip(i as int).drop_first() == a@.skip(i + 1));
        assert(b@.skip(i as int).drop_first() == b@.skip(i + 1));
        i = i + 1;
    }
    i < b_chars.len()
}

} // verus!
