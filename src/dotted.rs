//! Dotted-decimal text: how arcs are written, and how such text reads back.

use vstd::prelude::*;

verus! {

/// The character that writes the decimal digit `d`.
pub open spec fn digit_char(d: nat) -> char {
    if d == 0 { '0' }
    else if d == 1 { '1' }
    else if d == 2 { '2' }
    else if d == 3 { '3' }
    else if d == 4 { '4' }
    else if d == 5 { '5' }
    else if d == 6 { '6' }
    else if d == 7 { '7' }
    else if d == 8 { '8' }
    else { '9' }
}

/// The decimal digits of `n`, most significant first, without leading zeros.
pub open spec fn digits_of(n: nat) -> Seq<char>
    decreases n,
{
    if n < 10 {
        seq![digit_char(n)]
    } else {
        digits_of(n / 10).push(digit_char(n % 10))
    }
}

/// The arcs written in decimal and joined by single `.` characters.
pub open spec fn dotted_of(nodes: Seq<u32>) -> Seq<char>
    decreases nodes.len(),
{
    if nodes.len() == 0 {
        Seq::empty()
    } else if nodes.len() == 1 {
        digits_of(nodes[0] as nat)
    } else {
        dotted_of(nodes.drop_last()).push('.') + digits_of(nodes.last() as nat)
    }
}

/// How many times `c` occurs in `s`.
pub open spec fn count_char(s: Seq<char>, c: char) -> nat
    decreases s.len(),
{
    if s.len() == 0 {
        0
    } else {
        count_char(s.drop_last(), c) + if s.last() == c { 1nat } else { 0nat }
    }
}

/// `s` cut at every `.`: the pieces between separators, in order. Text with
/// `k` separators gives `k + 1` pieces, some of them possibly empty.
pub open spec fn split_dots(s: Seq<char>) -> Seq<Seq<char>>
    decreases s.len(),
{
    if s.len() == 0 {
        seq![Seq::empty()]
    } else {
        let prev = split_dots(s.drop_last());
        if s.last() == '.' {
            prev.push(Seq::empty())
        } else {
            prev.update(prev.len() - 1, prev.last().push(s.last()))
        }
    }
}

/// The value of a decimal digit character (any other character reads as 0).
pub open spec fn char_value(c: char) -> nat {
    if '0' <= c && c <= '9' {
        (c as nat - '0' as nat) as nat
    } else {
        0
    }
}

/// The number that the digit string `s` writes in decimal.
pub open spec fn decimal_value(s: Seq<char>) -> nat
    decreases s.len(),
{
    if s.len() == 0 {
        0
    } else {
        decimal_value(s.drop_last()) * 10 + char_value(s.last())
    }
}

/// Dotted-decimal text read back: split on `.`, each piece read as a number.
pub open spec fn parse_dotted(s: Seq<char>) -> Seq<nat> {
    split_dots(s).map_values(|p: Seq<char>| decimal_value(p))
}

/// Every character of `digits_of(n)` is a decimal digit, and there is at
/// least one.
pub proof fn lemma_digits_are_digits(n: nat)
    ensures
        digits_of(n).len() >= 1,
        forall|i: int| 0 <= i < digits_of(n).len() ==> '0' <= #[trigger] digits_of(n)[i] <= '9',
    decreases n,
{
    if n >= 10 {
        lemma_digits_are_digits(n / 10);
    }
}

/// The digits of `n` read back as `n`.
pub proof fn lemma_decimal_value_of_digits(n: nat)
    ensures
        decimal_value(digits_of(n)) == n,
    decreases n,
{
    let d = digits_of(n);
    let r = n % 10;
    assert(char_value(digit_char(r)) == r);
    if n >= 10 {
        lemma_decimal_value_of_digits(n / 10);
        assert(d.drop_last() =~= digits_of(n / 10));
        assert(d.last() == digit_char(r));
        assert(decimal_value(d) == decimal_value(d.drop_last()) * 10 + char_value(d.last()));
        assert(n == (n / 10) * 10 + n % 10);
    } else {
        assert(d.drop_last() =~= Seq::<char>::empty());
        assert(decimal_value(d) == decimal_value(d.drop_last()) * 10 + char_value(d.last()));
    }
}

/// Occurrences add up over a concatenation.
pub proof fn lemma_count_concat(s: Seq<char>, t: Seq<char>, c: char)
    ensures
        count_char(s + t, c) == count_char(s, c) + count_char(t, c),
    decreases t.len(),
{
    if t.len() == 0 {
        assert(s + t =~= s);
    } else {
        lemma_count_concat(s, t.drop_last(), c);
        assert((s + t).drop_last() =~= s + t.drop_last());
    }
}

/// Text with no `.` has none to count.
pub proof fn lemma_count_absent(t: Seq<char>, c: char)
    requires
        forall|i: int| 0 <= i < t.len() ==> t[i] != c,
    ensures
        count_char(t, c) == 0,
    decreases t.len(),
{
    if t.len() > 0 {
        lemma_count_absent(t.drop_last(), c);
    }
}

/// Cutting always yields at least one piece.
pub proof fn lemma_split_nonempty(s: Seq<char>)
    ensures
        split_dots(s).len() >= 1,
    decreases s.len(),
{
    if s.len() > 0 {
        lemma_split_nonempty(s.drop_last());
    }
}

/// Text without `.` appended to `s` lengthens the last piece of `s`.
pub proof fn lemma_split_append_plain(s: Seq<char>, t: Seq<char>)
    requires
        forall|i: int| 0 <= i < t.len() ==> t[i] != '.',
    ensures
        split_dots(s + t) == split_dots(s).update(
            split_dots(s).len() - 1,
            split_dots(s).last() + t,
        ),
    decreases t.len(),
{
    lemma_split_nonempty(s);
    if t.len() == 0 {
        assert(s + t =~= s);
        assert(split_dots(s).last() + t =~= split_dots(s).last());
        assert(split_dots(s).update(split_dots(s).len() - 1, split_dots(s).last()) =~= split_dots(s));
    } else {
        let u = t.drop_last();
        lemma_split_append_plain(s, u);
        assert((s + t).drop_last() =~= s + u);
        assert((s + t).last() == t.last());
        assert(split_dots(s).last() + u + seq![t.last()] =~= split_dots(s).last() + t);
        let prev = split_dots(s + u);
        assert(prev.last() =~= split_dots(s).last() + u);
        assert(prev.last().push(t.last()) =~= split_dots(s).last() + t);
        assert(prev.update(prev.len() - 1, prev.last().push(t.last())) =~= split_dots(s).update(
            split_dots(s).len() - 1,
            split_dots(s).last() + t,
        ));
    }
}

/// Cutting dotted-decimal text gives back the digits of each arc.
pub proof fn lemma_split_dotted(nodes: Seq<u32>)
    requires
        nodes.len() >= 1,
    ensures
        split_dots(dotted_of(nodes)) == nodes.map_values(|x: u32| digits_of(x as nat)),
    decreases nodes.len(),
{
    let last = digits_of(nodes.last() as nat);
    lemma_digits_are_digits(nodes.last() as nat);
    if nodes.len() == 1 {
        let e = Seq::<char>::empty();
        lemma_split_append_plain(e, last);
        assert(e + last =~= last);
        assert(split_dots(e) =~= seq![e]);
        assert(e + last =~= last);
        assert(split_dots(last) =~= nodes.map_values(|x: u32| digits_of(x as nat)));
    } else {
        let front = dotted_of(nodes.drop_last());
        lemma_split_dotted(nodes.drop_last());
        let p = front.push('.');
        assert(p.drop_last() =~= front);
        lemma_split_append_plain(p, last);
        lemma_split_nonempty(front);
        assert(split_dots(p) == split_dots(front).push(Seq::empty()));
        assert(Seq::<char>::empty() + last =~= last);
        assert(split_dots(p + last) =~= nodes.map_values(|x: u32| digits_of(x as nat)));
    }
}

/// Dotted-decimal text read back gives the arcs it was written from.
pub proof fn lemma_parse_dotted_of(nodes: Seq<u32>)
    requires
        nodes.len() >= 1,
    ensures
        parse_dotted(dotted_of(nodes)) == nodes.map_values(|x: u32| x as nat),
{
    lemma_split_dotted(nodes);
    assert forall|i: int| 0 <= i < nodes.len() implies #[trigger] parse_dotted(dotted_of(nodes))[i]
        == nodes[i] as nat by {
        lemma_decimal_value_of_digits(nodes[i] as nat);
    }
    assert(parse_dotted(dotted_of(nodes)) =~= nodes.map_values(|x: u32| x as nat));
}

/// Dotted-decimal text holds one `.` fewer than it has arcs.
pub proof fn lemma_count_dots(nodes: Seq<u32>)
    requires
        nodes.len() >= 1,
    ensures
        count_char(dotted_of(nodes), '.') == nodes.len() - 1,
    decreases nodes.len(),
{
    let last = digits_of(nodes.last() as nat);
    lemma_digits_are_digits(nodes.last() as nat);
    lemma_count_absent(last, '.');
    if nodes.len() > 1 {
        let front = dotted_of(nodes.drop_last());
        lemma_count_dots(nodes.drop_last());
        lemma_count_concat(front.push('.'), last, '.');
        assert(front.push('.').drop_last() =~= front);
    }
}

/// The one-character text of the decimal digit `d`.
fn digit_str(d: u32) -> (r: &'static str)
    requires
        d < 10,
    ensures
        r@ == seq![digit_char(d as nat)],
{
    proof {
        reveal_strlit("0");
        reveal_strlit("1");
        reveal_strlit("2");
        reveal_strlit("3");
        reveal_strlit("4");
        reveal_strlit("5");
        reveal_strlit("6");
        reveal_strlit("7");
        reveal_strlit("8");
        reveal_strlit("9");
    }
    match d {
        0 => "0",
        1 => "1",
        2 => "2",
        3 => "3",
        4 => "4",
        5 => "5",
        6 => "6",
        7 => "7",
        8 => "8",
        _ => "9",
    }
}

/// Appends the decimal digits of `n` to `out`.
pub fn push_decimal(out: &mut String, n: u32)
    ensures
        final(out)@ == old(out)@ + digits_of(n as nat),
    decreases n,
{
    if n >= 10 {
        push_decimal(out, n / 10);
    }
    out.append(digit_str(n % 10));
}

} // verus!
