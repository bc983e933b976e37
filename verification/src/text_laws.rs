//! What holds of the operations on text.

use crate::text::all_digits;
use crate::text::decimal_of;
use crate::text::digits_value;
use crate::text::first_at;
use crate::text::first_at_is;
use crate::text::last_at;
use crate::text::last_at_is;
use crate::text::lower;
use crate::text::lower_char;
use crate::text::occurs;
use crate::text::occurs_at;
use crate::text::port_of;
use crate::text::split_on;
use crate::text::split_on_facts;
use crate::text::trim_slashes;
use crate::text::trim_slashes_is;
use vstd::prelude::*;

verus! {

/// Trimming takes away all slashes at the end, and nothing else.
pub proof fn trimming(text: Seq<char>, slashes: Seq<char>)
    requires
        text.len() == 0 || text.last() != '/',
        forall|i: int| 0 <= i < slashes.len() ==> slashes[i] == '/',
    ensures
        trim_slashes(text + slashes) == text,
{
    let whole = text + slashes;
    trim_slashes_is(whole, text.len() as int);
    assert(whole.take(text.len() as int) =~= text);
}

/// Lower-casing moves each ASCII capital by the distance of a from A, and changes
/// no other character.
pub proof fn lowering(s: Seq<char>, i: int)
    ensures
        lower(s).len() == s.len(),
        0 <= i < s.len() && 'A' <= s[i] <= 'Z' ==> lower(s)[i] as int - 'a' as int == s[i] as int
            - 'A' as int,
        0 <= i < s.len() && !('A' <= s[i] <= 'Z') ==> lower(s)[i] == s[i],
{
    if 0 <= i < s.len() {
        assert(lower(s)[i] == lower_char(s[i]));
    }
}

/// Lower-casing two texts, one behind the other, is lower-casing each.
pub proof fn lowering_joined(a: Seq<char>, b: Seq<char>)
    ensures
        lower(a + b) == lower(a) + lower(b),
{
    assert(lower(a + b) =~= lower(a) + lower(b));
}

/// A text occurs in another exactly if this is that text with something, or
/// nothing, before and behind it.
pub proof fn occurrence(needle: Seq<char>, hay: Seq<char>)
    ensures
        occurs(needle, hay) <==> exists|a: Seq<char>, b: Seq<char>| hay == #[trigger] (a + needle + b),
{
    if occurs(needle, hay) {
        let i = choose|i: int| occurs_at(needle, hay, i);
        let a = hay.take(i);
        let b = hay.skip(i + needle.len() as int);
        assert(hay =~= a + needle + b) by {
            assert forall|j: int| i <= j < i + needle.len() implies hay[j] == needle[j - i] by {
                assert(hay.subrange(i, i + needle.len())[j - i] == hay[j]);
            }
        }
    }
    if exists|a: Seq<char>, b: Seq<char>| hay == #[trigger] (a + needle + b) {
        let (a, b) = choose|a: Seq<char>, b: Seq<char>| hay == #[trigger] (a + needle + b);
        assert(hay.subrange(a.len() as int, a.len() as int + needle.len()) =~= needle);
        assert(occurs_at(needle, hay, a.len() as int));
    }
}

/// The first occurrence of a character stands behind a text without it.
pub proof fn first_occurrence(before: Seq<char>, c: char, after: Seq<char>)
    requires
        !before.contains(c),
    ensures
        first_at(before.push(c) + after, c) == before.len(),
        first_at(before, c) == before.len(),
{
    let whole = before.push(c) + after;
    assert forall|j: int| 0 <= j < before.len() implies before[j] != c by {
        assert(before.contains(before[j]));
    }
    assert(forall|j: int| 0 <= j < before.len() ==> whole[j] == before[j]);
    first_at_is(whole, c, before.len() as int);
    first_at_is(before, c, before.len() as int);
}

/// The last occurrence of a character stands before a text without it.
pub proof fn last_occurrence(before: Seq<char>, c: char, after: Seq<char>)
    requires
        !after.contains(c),
    ensures
        last_at(before.push(c) + after, c) == before.len(),
        last_at(after, c) == -1,
{
    let whole = before.push(c) + after;
    assert forall|j: int| 0 <= j < after.len() implies after[j] != c by {
        assert(after.contains(after[j]));
    }
    assert forall|j: int| before.len() < j < whole.len() implies whole[j] != c by {
        assert(whole[j] == after[j - before.len() - 1]);
    }
    last_at_is(whole, c, before.len() as int);
    last_at_is(after, c, -1);
}

/// The pieces of two texts with a separator between them.
pub proof fn split_on_joined(a: Seq<char>, b: Seq<char>, c: char)
    ensures
        split_on(a.push(c) + b, c) == split_on(a, c) + split_on(b, c),
    decreases b.len(),
{
    let whole = a.push(c) + b;
    split_on_facts(a, c);
    if b.len() == 0 {
        assert(whole =~= a.push(c));
        assert(whole.drop_last() =~= a);
        assert(b =~= Seq::<char>::empty());
        assert(split_on(a, c).push(Seq::empty()) =~= split_on(a, c) + seq![b]);
    } else {
        split_on_joined(a, b.drop_last(), c);
        split_on_facts(b.drop_last(), c);
        assert(whole.drop_last() =~= a.push(c) + b.drop_last());
        assert(whole.last() == b.last());
        let head = split_on(a, c);
        let tail = split_on(b.drop_last(), c);
        if b.last() == c {
            assert((head + tail).push(Seq::empty()) =~= head + tail.push(Seq::empty()));
        } else {
            assert((head + tail).last() == tail.last());
            assert((head + tail).drop_last().push(tail.last().push(b.last())) =~= head
                + tail.drop_last().push(tail.last().push(b.last())));
        }
    }
}

/// A text without the separator is its only piece.
pub proof fn split_on_piece(piece: Seq<char>, c: char)
    requires
        !piece.contains(c),
    ensures
        split_on(piece, c) == seq![piece],
    decreases piece.len(),
{
    if piece.len() > 0 {
        let shorter = piece.drop_last();
        assert(piece.contains(piece[piece.len() - 1]));
        assert(!shorter.contains(c)) by {
            if shorter.contains(c) {
                let k = shorter.index_of(c);
                assert(piece[k] == c);
            }
        }
        split_on_piece(shorter, c);
        assert(shorter.push(piece.last()) =~= piece);
        assert(seq![shorter].drop_last().push(piece) =~= seq![piece]);
    }
}

/// A number below ten is written as one digit, and the digits of any other are
/// those of its tens, followed by that of its ones.
pub proof fn decimal_digits(tens: nat, ones: nat)
    requires
        ones < 10,
    ensures
        decimal_of(ones).len() == 1,
        decimal_of(ones)[0] as int - '0' as int == ones,
        tens > 0 ==> decimal_of(10 * tens + ones) == decimal_of(tens) + decimal_of(ones),
{
    if tens > 0 {
        let n = 10 * tens + ones;
        assert(n / 10 == tens && n % 10 == ones);
        assert(decimal_of(n) =~= decimal_of(tens) + decimal_of(ones));
    }
}

/// Digits denote a number place by place, the last digit being the ones.
pub proof fn digit_places(s: Seq<char>, c: char)
    requires
        '0' <= c <= '9',
    ensures
        digits_value(Seq::empty()) == 0,
        digits_value(s.push(c)) == 10 * digits_value(s) + (c as int - '0' as int),
{
    assert(s.push(c).drop_last() =~= s);
}

/// Digits that denote a number of 16 bits are a port, with or without a plus sign
/// in front and however many zeros they begin with; all other digits are none.
pub proof fn ports_of_digits(s: Seq<char>)
    requires
        s.len() > 0,
        forall|i: int| 0 <= i < s.len() ==> '0' <= #[trigger] s[i] <= '9',
    ensures
        port_of(s) is Some <==> digits_value(s) < 65536,
        port_of(s) matches Some(port) ==> port as int == digits_value(s),
        port_of(seq!['+'] + s) == port_of(s),
{
    assert((seq!['+'] + s).skip(1) =~= s);
    assert('0' <= s[0]);
    assert(all_digits(s));
}

/// A text that is empty, or holds anything but digits and one plus sign in front
/// of them, is no port.
pub proof fn no_port_otherwise(s: Seq<char>, i: int)
    requires
        s.len() == 0 || s == seq!['+'] || (0 <= i < s.len() && !('0' <= s[i] <= '9') && (i > 0
            || s[i] != '+')),
    ensures
        port_of(s) is None,
{
    if s.len() > 0 && s[0] == '+' {
        if s.len() > 1 {
            assert(s.skip(1)[i - 1] == s[i]);
            assert(!all_digits(s.skip(1)));
        }
    } else if s.len() > 0 {
        assert(!all_digits(s));
    }
}

} // verus!
