//! Operations on text, stated over the characters of a string.

use vstd::prelude::*;
use vstd::utf8::encode_utf8;
use vstd::utf8::encode_utf8_decode_utf8;

verus! {

/// `String::push` appends the given character to the end of the string.
pub assume_specification[ String::push ](s: &mut String, c: char)
    ensures
        final(s)@ == old(s)@.push(c),
;

/// The text inside an optional string.
pub open spec fn text_of(s: Option<String>) -> Option<Seq<char>> {
    match s {
        Some(t) => Some(t@),
        None => None,
    }
}

/// `s` without its trailing slashes.
pub open spec fn trim_slashes(s: Seq<char>) -> Seq<char>
    decreases s.len(),
{
    if s.len() > 0 && s.last() == '/' {
        trim_slashes(s.drop_last())
    } else {
        s
    }
}

/// The lower-case form of an ASCII capital; any other character is itself.
pub open spec fn lower_char(c: char) -> char {
    if 'A' <= c && c <= 'Z' {
        (c as u8 + 32) as char
    } else {
        c
    }
}

/// `s` with its ASCII capitals in lower case.
pub open spec fn lower(s: Seq<char>) -> Seq<char> {
    Seq::new(s.len(), |i: int| lower_char(s[i]))
}

/// The index of the first `c` in `s`, or the length of `s` if there is none.
pub open spec fn first_at(s: Seq<char>, c: char) -> int
    decreases s.len(),
{
    if s.len() == 0 || s[0] == c {
        0
    } else {
        1 + first_at(s.skip(1), c)
    }
}

/// The index of the last `c` in `s`, or -1 if there is none.
pub open spec fn last_at(s: Seq<char>, c: char) -> int
    decreases s.len(),
{
    if s.len() == 0 {
        -1
    } else if s.last() == c {
        s.len() - 1
    } else {
        last_at(s.drop_last(), c)
    }
}

/// `needle` stands in `hay` at index `i`.
pub open spec fn occurs_at(needle: Seq<char>, hay: Seq<char>, i: int) -> bool {
    &&& 0 <= i
    &&& i + needle.len() <= hay.len()
    &&& hay.subrange(i, i + needle.len()) == needle
}

/// `needle` stands somewhere in `hay`.
pub open spec fn occurs(needle: Seq<char>, hay: Seq<char>) -> bool {
    exists|i: int| occurs_at(needle, hay, i)
}

/// The pieces of `s` between the occurrences of `c`; there is always at least one.
pub open spec fn split_on(s: Seq<char>, c: char) -> Seq<Seq<char>>
    decreases s.len(),
{
    if s.len() == 0 {
        seq![s]
    } else if s.last() == c {
        split_on(s.drop_last(), c).push(Seq::empty())
    } else {
        let before = split_on(s.drop_last(), c);
        before.drop_last().push(before.last().push(s.last()))
    }
}

/// The decimal digit with value `d`.
pub open spec fn digit(d: nat) -> char {
    (d + 48) as char
}

/// `s` consists of decimal digits.
pub open spec fn all_digits(s: Seq<char>) -> bool {
    forall|i: int| 0 <= i < s.len() ==> '0' <= #[trigger] s[i] && s[i] <= '9'
}

/// The number that the decimal digits `s` denote.
pub open spec fn digits_value(s: Seq<char>) -> nat
    decreases s.len(),
{
    if s.len() == 0 {
        0
    } else {
        10 * digits_value(s.drop_last()) + (s.last() as u32 - 48) as nat
    }
}

/// The port number that `s` denotes: decimal digits after an optional `+`,
/// with a value that fits in 16 bits.
pub open spec fn port_of(s: Seq<char>) -> Option<u16> {
    let digits = if s.len() > 0 && s[0] == '+' { s.skip(1) } else { s };
    if digits.len() > 0 && all_digits(digits) && digits_value(digits) <= u16::MAX {
        Some(digits_value(digits) as u16)
    } else {
        None
    }
}

/// The decimal digits of `n`, without leading zeros.
pub open spec fn decimal_of(n: nat) -> Seq<char>
    decreases n,
{
    if n < 10 {
        seq![digit(n)]
    } else {
        decimal_of(n / 10).push(digit(n % 10))
    }
}

/// The decimal digits of a number denote that number.
pub proof fn decimal_round_trip(n: nat)
    ensures
        decimal_of(n).len() > 0,
        all_digits(decimal_of(n)),
        digits_value(decimal_of(n)) == n,
    decreases n,
{
    if n < 10 {
        assert(decimal_of(n).drop_last() =~= Seq::<char>::empty());
        assert(digits_value(decimal_of(n).drop_last()) == 0);
    } else {
        decimal_round_trip(n / 10);
        assert(decimal_of(n).drop_last() =~= decimal_of(n / 10));
    }
}

/// A port that is written in decimal is read back as that port.
pub proof fn port_round_trip(port: u16)
    ensures
        port_of(decimal_of(port as nat)) == Some(port),
{
    decimal_round_trip(port as nat);
}

/// What determines [`first_at`].
pub(crate) proof fn first_at_is(s: Seq<char>, c: char, i: int)
    requires
        0 <= i <= s.len(),
        forall|j: int| 0 <= j < i ==> s[j] != c,
        i < s.len() ==> s[i] == c,
    ensures
        first_at(s, c) == i,
    decreases s.len(),
{
    if i > 0 {
        assert(s[0] != c);
        assert forall|j: int| 0 <= j < i - 1 implies s.skip(1)[j] != c by {
            assert(s[j + 1] != c);
        }
        first_at_is(s.skip(1), c, i - 1);
    }
}

/// What [`first_at`] promises.
pub(crate) proof fn first_at_bounds(s: Seq<char>, c: char)
    ensures
        0 <= first_at(s, c) <= s.len(),
        forall|j: int| 0 <= j < first_at(s, c) ==> s[j] != c,
        first_at(s, c) < s.len() ==> s[first_at(s, c)] == c,
    decreases s.len(),
{
    if s.len() > 0 && s[0] != c {
        first_at_bounds(s.skip(1), c);
        assert forall|j: int| 0 <= j < first_at(s, c) implies s[j] != c by {
            if j > 0 {
                assert(s.skip(1)[j - 1] != c);
            }
        }
    }
}

/// What determines [`last_at`].
pub(crate) proof fn last_at_is(s: Seq<char>, c: char, i: int)
    requires
        -1 <= i < s.len(),
        forall|j: int| i < j < s.len() ==> s[j] != c,
        i >= 0 ==> s[i] == c,
    ensures
        last_at(s, c) == i,
    decreases s.len(),
{
    if s.len() > 0 && i < s.len() - 1 {
        assert(s.last() != c);
        assert forall|j: int| i < j < s.drop_last().len() implies s.drop_last()[j] != c by {
            assert(s[j] != c);
        }
        last_at_is(s.drop_last(), c, i);
    }
}

/// What [`last_at`] promises.
pub(crate) proof fn last_at_bounds(s: Seq<char>, c: char)
    ensures
        -1 <= last_at(s, c) < s.len(),
        forall|j: int| last_at(s, c) < j < s.len() ==> s[j] != c,
        last_at(s, c) >= 0 ==> s[last_at(s, c)] == c,
    decreases s.len(),
{
    if s.len() > 0 && s.last() != c {
        last_at_bounds(s.drop_last(), c);
        assert forall|j: int| last_at(s, c) < j < s.len() implies s[j] != c by {
            if j < s.len() - 1 {
                assert(s.drop_last()[j] != c);
            }
        }
    }
}

/// There is a first occurrence exactly if there is one at all.
pub(crate) proof fn first_at_contains(s: Seq<char>, c: char)
    ensures
        first_at(s, c) < s.len() <==> s.contains(c),
{
    first_at_bounds(s, c);
    if s.contains(c) {
        let k = s.index_of(c);
        assert(s[k] == c);
    }
}

/// Lower-casing twice is the same as lower-casing once.
pub proof fn lower_idempotent(s: Seq<char>)
    ensures
        lower(lower(s)) == lower(s),
{
    assert(lower(lower(s)) =~= lower(s));
}

/// A trimmed text ends in no slash, is a prefix of the text, and is left alone
/// by trimming it again.
pub(crate) proof fn trim_slashes_facts(s: Seq<char>)
    ensures
        trim_slashes(s).is_prefix_of(s),
        trim_slashes(s).len() > 0 ==> trim_slashes(s).last() != '/',
        trim_slashes(trim_slashes(s)) == trim_slashes(s),
    decreases s.len(),
{
    if s.len() > 0 && s.last() == '/' {
        trim_slashes_facts(s.drop_last());
        let t = trim_slashes(s);
        assert(t =~= s.subrange(0, t.len() as int)) by {
            assert(t =~= s.drop_last().subrange(0, t.len() as int));
        }
    } else {
        assert(s =~= s.subrange(0, s.len() as int));
    }
}

/// What determines [`trim_slashes`].
pub(crate) proof fn trim_slashes_is(s: Seq<char>, n: int)
    requires
        0 <= n <= s.len(),
        forall|j: int| n <= j < s.len() ==> s[j] == '/',
        n > 0 ==> s[n - 1] != '/',
    ensures
        trim_slashes(s) == s.take(n),
    decreases s.len(),
{
    if n < s.len() {
        assert(s[s.len() - 1] == '/');
        trim_slashes_is(s.drop_last(), n);
        assert(s.drop_last().take(n) =~= s.take(n));
    } else {
        assert(s.take(n) =~= s);
    }
}

/// The pieces of a text hold no separator, and there is at least one.
pub(crate) proof fn split_on_facts(s: Seq<char>, c: char)
    ensures
        split_on(s, c).len() > 0,
        forall|i: int, j: int|
            0 <= i < split_on(s, c).len() && 0 <= j < split_on(s, c)[i].len()
                ==> #[trigger] split_on(s, c)[i][j] != c,
    decreases s.len(),
{
    if s.len() > 0 {
        split_on_facts(s.drop_last(), c);
    }
}

/// Texts are equal when their encodings are.
proof fn encoding_is_injective(a: Seq<char>, b: Seq<char>)
    requires
        encode_utf8(a) == encode_utf8(b),
    ensures
        a == b,
{
    encode_utf8_decode_utf8(a);
    encode_utf8_decode_utf8(b);
}

/// Whether two texts are the same.
pub fn same(a: &str, b: &str) -> (r: bool)
    ensures
        r == (a@ == b@),
{
    let x = a.as_bytes();
    let y = b.as_bytes();
    if x.len() != y.len() {
        return false;
    }
    let mut i: usize = 0;
    while i < x.len()
        invariant
            i <= x@.len(),
            x@.len() == y@.len(),
            x@ == encode_utf8(a@),
            y@ == encode_utf8(b@),
            forall|j: int| 0 <= j < i ==> x@[j] == y@[j],
        decreases x@.len() - i,
    {
        if x[i] != y[i] {
            return false;
        }
        i += 1;
    }
    proof {
        assert(x@ =~= y@);
        encoding_is_injective(a@, b@);
    }
    true
}

/// The characters of a text.
pub fn chars_of(s: &str) -> (v: Vec<char>)
    ensures
        v@ == s@,
{
    let mut v: Vec<char> = Vec::new();
    for c in it: s.chars()
        invariant
            v@ == it.seq().take(it.index() as int),
            it.seq() == s@,
    {
        v.push(c);
    }
    v
}

/// The text made of the characters from `from` up to `to`.
pub fn string_of(v: &Vec<char>, from: usize, to: usize) -> (s: String)
    requires
        from <= to <= v@.len(),
    ensures
        s@ == v@.subrange(from as int, to as int),
{
    let mut s = String::new();
    let mut i: usize = from;
    while i < to
        invariant
            from <= i <= to <= v@.len(),
            s@ == v@.subrange(from as int, i as int),
        decreases to - i,
    {
        s.push(v[i]);
        i += 1;
    }
    s
}

/// A text without its trailing slashes.
pub fn trim_end_slashes(s: &str) -> (r: String)
    ensures
        r@ == trim_slashes(s@),
{
    let v = chars_of(s);
    let mut n: usize = v.len();
    while n > 0 && v[n - 1] == '/'
        invariant
            n <= v@.len(),
            forall|j: int| n <= j < v@.len() ==> v@[j] == '/',
        decreases n,
    {
        n -= 1;
    }
    proof {
        trim_slashes_is(v@, n as int);
    }
    string_of(&v, 0, n)
}

/// A text with its ASCII capitals in lower case.
pub fn ascii_lowercase(s: &str) -> (r: String)
    ensures
        r@ == lower(s@),
{
    let v = chars_of(s);
    let mut r = String::new();
    let mut i: usize = 0;
    while i < v.len()
        invariant
            i <= v@.len(),
            v@ == s@,
            r@ == lower(s@).take(i as int),
        decreases v@.len() - i,
    {
        let c = v[i];
        let l = if 'A' <= c && c <= 'Z' { (c as u8 + 32) as char } else { c };
        assert(l == lower_char(c));
        r.push(l);
        i += 1;
        assert(r@ =~= lower(s@).take(i as int));
    }
    assert(lower(s@).take(v@.len() as int) =~= lower(s@));
    r
}

/// Whether `s` begins with `prefix`.
pub fn begins_with(s: &str, prefix: &str) -> (r: bool)
    ensures
        r == prefix@.is_prefix_of(s@),
{
    let v = chars_of(s);
    let p = chars_of(prefix);
    if p.len() > v.len() {
        return false;
    }
    let mut i: usize = 0;
    while i < p.len()
        invariant
            i <= p@.len() <= v@.len(),
            v@ == s@,
            p@ == prefix@,
            forall|j: int| 0 <= j < i ==> p@[j] == v@[j],
        decreases p@.len() - i,
    {
        if p[i] != v[i] {
            assert(v@.subrange(0, p@.len() as int)[i as int] != p@[i as int]);
            return false;
        }
        i += 1;
    }
    assert(p@ =~= v@.subrange(0, p@.len() as int));
    true
}

/// Whether `needle` stands at index `at` of `hay`.
fn stands_at(hay: &Vec<char>, needle: &Vec<char>, at: usize) -> (r: bool)
    requires
        at + needle@.len() <= hay@.len(),
    ensures
        r == occurs_at(needle@, hay@, at as int),
{
    let total: usize = hay.len();
    let mut i: usize = 0;
    while i < needle.len()
        invariant
            i <= needle@.len(),
            total == hay@.len(),
            at + needle@.len() <= hay@.len(),
            forall|j: int| 0 <= j < i ==> needle@[j] == hay@[at + j],
        decreases needle@.len() - i,
    {
        if needle[i] != hay[at + i] {
            assert(hay@.subrange(at as int, at + needle@.len())[i as int] != needle@[i as int]);
            return false;
        }
        i += 1;
    }
    assert(hay@.subrange(at as int, at + needle@.len()) =~= needle@);
    true
}

/// Whether `needle` stands somewhere in `hay`.
pub fn contains(hay: &str, needle: &str) -> (r: bool)
    ensures
        r == occurs(needle@, hay@),
{
    let h = chars_of(hay);
    let n = chars_of(needle);
    if n.len() > h.len() {
        return false;
    }
    let last: usize = h.len() - n.len();
    let mut i: usize = 0;
    while i < last
        invariant
            n@.len() <= h@.len(),
            last == h@.len() - n@.len(),
            i <= last,
            h@ == hay@,
            n@ == needle@,
            forall|j: int| 0 <= j < i ==> !occurs_at(needle@, hay@, j),
        decreases last - i,
    {
        if stands_at(&h, &n, i) {
            return true;
        }
        i += 1;
    }
    stands_at(&h, &n, last)
}

/// The index of the first `c`, or the length if there is none.
pub fn first_index(v: &Vec<char>, c: char) -> (i: usize)
    ensures
        i == first_at(v@, c),
        i <= v@.len(),
{
    let mut i: usize = 0;
    while i < v.len() && v[i] != c
        invariant
            i <= v@.len(),
            forall|j: int| 0 <= j < i ==> v@[j] != c,
        decreases v@.len() - i,
    {
        i += 1;
    }
    proof {
        first_at_is(v@, c, i as int);
    }
    i
}

/// The index of the last `c`, if there is one.
pub fn last_index(v: &Vec<char>, c: char) -> (r: Option<usize>)
    ensures
        r is None <==> last_at(v@, c) == -1,
        r matches Some(i) ==> i == last_at(v@, c) && i < v@.len(),
{
    let mut n: usize = v.len();
    while n > 0
        invariant
            n <= v@.len(),
            forall|j: int| n <= j < v@.len() ==> v@[j] != c,
        decreases n,
    {
        if v[n - 1] == c {
            proof {
                last_at_is(v@, c, n - 1);
            }
            return Some(n - 1);
        }
        n -= 1;
    }
    proof {
        last_at_is(v@, c, -1);
    }
    None
}

/// The port number that a text denotes, if it denotes one.
pub fn parse_port(s: &str) -> (r: Option<u16>)
    ensures
        r == port_of(s@),
{
    let v = chars_of(s);
    let from: usize = if v.len() > 0 && v[0] == '+' { 1 } else { 0 };
    let ghost digits = v@.skip(from as int);
    assert(from == 0 ==> digits =~= v@);
    if from == v.len() {
        return None;
    }
    let mut value: u32 = 0;
    let mut overflow: bool = false;
    let mut i: usize = from;
    assert(digits.take(0) =~= Seq::<char>::empty());
    while i < v.len()
        invariant
            from <= i <= v@.len(),
            v@ == s@,
            from == (if s@.len() > 0 && s@[0] == '+' { 1int } else { 0int }),
            digits == v@.skip(from as int),
            from == 0 ==> digits == v@,
            all_digits(digits.take(i - from)),
            !overflow ==> value == digits_value(digits.take(i - from)) && value <= u16::MAX,
            overflow ==> digits_value(digits.take(i - from)) > u16::MAX,
        decreases v@.len() - i,
    {
        let c = v[i];
        if c < '0' || c > '9' {
            assert(digits[i - from] == c);
            return None;
        }
        proof {
            let before = digits.take(i - from);
            let after = digits.take(i - from + 1);
            assert(after.drop_last() =~= before);
            assert(after.last() == c);
            assert(all_digits(after)) by {
                assert forall|j: int| 0 <= j < after.len() implies '0' <= #[trigger] after[j]
                    && after[j] <= '9' by {
                    if j < before.len() {
                        assert(before[j] == after[j]);
                    }
                }
            }
        }
        if !overflow {
            value = value * 10 + (c as u32 - 48);
            if value > 65535 {
                overflow = true;
            }
        }
        i += 1;
    }
    assert(digits.take(digits.len() as int) =~= digits);
    if overflow {
        None
    } else {
        Some(value as u16)
    }
}

/// The decimal digits of a number.
pub fn decimal(n: u64) -> (r: String)
    ensures
        r@ == decimal_of(n as nat),
    decreases n,
{
    let mut r = if n < 10 { String::new() } else { decimal(n / 10) };
    let d: u8 = (n % 10) as u8;
    r.push((d + 48) as char);
    assert(r@ =~= decimal_of(n as nat));
    r
}

/// The pieces of a text between the occurrences of a character.
pub fn split(s: &str, c: char) -> (r: Vec<String>)
    ensures
        r.deep_view() == split_on(s@, c),
{
    let v = chars_of(s);
    let mut r: Vec<String> = Vec::new();
    let mut piece = String::new();
    let mut i: usize = 0;
    assert(v@.take(0) =~= Seq::<char>::empty());
    assert(split_on(v@.take(0), c) =~= r.deep_view().push(piece@));
    while i < v.len()
        invariant
            i <= v@.len(),
            split_on(v@.take(i as int), c) == r.deep_view().push(piece@),
        decreases v@.len() - i,
    {
        let x = v[i];
        proof {
            assert(v@.take(i + 1).drop_last() =~= v@.take(i as int));
            assert(v@.take(i + 1).last() == x);
        }
        let ghost before = r.deep_view();
        assert(before.push(piece@).drop_last() =~= before);
        if x == c {
            r.push(piece);
            piece = String::new();
            assert(r.deep_view() =~= before.push(r@.last()@));
        } else {
            piece.push(x);
        }
        i += 1;
        assert(split_on(v@.take(i as int), c) =~= r.deep_view().push(piece@));
    }
    let ghost before = r.deep_view();
    r.push(piece);
    assert(r.deep_view() =~= before.push(r@.last()@));
    assert(v@.take(v@.len() as int) =~= v@);
    r
}

} // verus!
