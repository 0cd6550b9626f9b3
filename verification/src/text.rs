//! Text as sequences of characters: searching, trimming, joining and encoding.

use vstd::prelude::*;
use vstd::string::*;

verus! {

/// `std::string::String::push`: appends one character.
pub assume_specification[ String::push ](s: &mut String, c: char)
    ensures
        final(s)@ == old(s)@.push(c),
;

/// The character is white space: it has the Unicode property `White_Space`.
pub open spec fn is_white_space(c: char) -> bool {
    let code = c as int;
    ||| 0x9 <= code <= 0xD
    ||| code == 0x20 || code == 0x85 || code == 0xA0 || code == 0x1680
    ||| 0x2000 <= code <= 0x200A
    ||| code == 0x2028 || code == 0x2029 || code == 0x202F || code == 0x205F || code == 0x3000
}

/// `char::is_whitespace`: whether the character has the Unicode property
/// `White_Space`, which 25 characters have.
pub assume_specification[ char::is_whitespace ](c: char) -> (r: bool)
    ensures
        r == is_white_space(c),
;

/// The pattern `p` stands in `s` at position `i`.
pub open spec fn occurs_at(s: Seq<char>, p: Seq<char>, i: int) -> bool {
    &&& 0 <= i
    &&& i + p.len() <= s.len()
    &&& s.subrange(i, i + p.len()) == p
}

/// The pattern `p` stands somewhere in `s`.
pub open spec fn occurs_in(s: Seq<char>, p: Seq<char>) -> bool {
    exists|i: int| occurs_at(s, p, i)
}

/// `s` without the copies of `p` that it starts with.
pub open spec fn without_prefixes(s: Seq<char>, p: Seq<char>) -> Seq<char>
    decreases s.len(),
{
    if p.len() > 0 && occurs_at(s, p, 0) {
        without_prefixes(s.skip(p.len() as int), p)
    } else {
        s
    }
}

/// `s` without the characters `c` that it ends in.
pub open spec fn without_trailing(s: Seq<char>, c: char) -> Seq<char>
    decreases s.len(),
{
    if s.len() > 0 && s.last() == c {
        without_trailing(s.drop_last(), c)
    } else {
        s
    }
}

/// The part of `s` before the first `c`; all of `s` where it holds none.
pub open spec fn part_before(s: Seq<char>, c: char) -> Seq<char>
    decreases s.len(),
{
    if s.len() == 0 || s[0] == c {
        Seq::empty()
    } else {
        seq![s[0]] + part_before(s.skip(1), c)
    }
}

/// `s` with every copy of `from`, found from left to right, replaced by `to`.
pub open spec fn replaced(s: Seq<char>, from: Seq<char>, to: Seq<char>) -> Seq<char>
    decreases s.len(),
{
    if s.len() == 0 || from.len() == 0 {
        s
    } else if occurs_at(s, from, 0) {
        to + replaced(s.skip(from.len() as int), from, to)
    } else {
        seq![s[0]] + replaced(s.skip(1), from, to)
    }
}

/// `s` without the white space that it starts with.
pub open spec fn trimmed_start(s: Seq<char>) -> Seq<char>
    decreases s.len(),
{
    if s.len() > 0 && is_white_space(s[0]) {
        trimmed_start(s.skip(1))
    } else {
        s
    }
}

/// `s` without the white space that it ends in.
pub open spec fn trimmed_end(s: Seq<char>) -> Seq<char>
    decreases s.len(),
{
    if s.len() > 0 && is_white_space(s.last()) {
        trimmed_end(s.drop_last())
    } else {
        s
    }
}

/// `s` without the white space around it.
pub open spec fn trimmed(s: Seq<char>) -> Seq<char> {
    trimmed_end(trimmed_start(s))
}

/// The parts in order, with `sep` between each two.
pub open spec fn joined(parts: Seq<Seq<char>>, sep: Seq<char>) -> Seq<char>
    decreases parts.len(),
{
    if parts.len() == 0 {
        Seq::empty()
    } else if parts.len() == 1 {
        parts[0]
    } else {
        joined(parts.drop_last(), sep) + sep + parts.last()
    }
}

/// `s` with spaces after it, up to `width` characters.
pub open spec fn padded(s: Seq<char>, width: int) -> Seq<char>
    decreases width - s.len(),
{
    if s.len() >= width {
        s
    } else {
        padded(s.push(' '), width)
    }
}

/// The character of a decimal digit.
pub open spec fn digit_char(d: int) -> char {
    (48 + d) as char
}

/// The decimal digits of a number, without leading zeros.
pub open spec fn decimal(n: nat) -> Seq<char>
    decreases n,
{
    if n < 10 {
        seq![digit_char(n as int)]
    } else {
        decimal(n / 10).push(digit_char((n % 10) as int))
    }
}

/// The code of a character, upper-case ASCII letters taken as lower-case ones.
pub open spec fn folded(c: char) -> int {
    if 65 <= c as int <= 90 {
        c as int + 32
    } else {
        c as int
    }
}

/// Equal up to the case of ASCII letters.
pub open spec fn same_ignoring_ascii_case(a: Seq<char>, b: Seq<char>) -> bool {
    &&& a.len() == b.len()
    &&& forall|i: int| 0 <= i < a.len() ==> folded(#[trigger] a[i]) == folded(b[i])
}

/// The UTF-16 code units of one character.
pub open spec fn utf16_units(c: char) -> Seq<u16> {
    if (c as int) < 0x1_0000 {
        seq![c as u16]
    } else {
        seq![
            (0xD800 + (c as int - 0x1_0000) / 0x400) as u16,
            (0xDC00 + (c as int - 0x1_0000) % 0x400) as u16,
        ]
    }
}

/// The UTF-16 code units of a text.
pub open spec fn utf16(s: Seq<char>) -> Seq<u16>
    decreases s.len(),
{
    if s.len() == 0 {
        Seq::empty()
    } else {
        utf16(s.drop_last()) + utf16_units(s.last())
    }
}

/// `a` comes before `b` in the order of texts by character codes.
pub open spec fn text_before(a: Seq<char>, b: Seq<char>) -> bool {
    exists|i: int| differ_first_at(a, b, i)
}

/// `a` and `b` agree before position `i`; there `a` ends or holds the smaller code.
pub open spec fn differ_first_at(a: Seq<char>, b: Seq<char>, i: int) -> bool {
    &&& 0 <= i <= a.len()
    &&& i < b.len()
    &&& a.take(i) == b.take(i)
    &&& i < a.len() ==> (a[i] as int) < (b[i] as int)
}

/// The characters of a text.
pub fn chars_of(s: &str) -> (r: Vec<char>)
    ensures
        r@ == s@,
{
    let mut r: Vec<char> = Vec::new();
    for c in it: s.chars()
        invariant
            r@ == it.seq().take(it.index()),
            it.seq() == s@,
    {
        r.push(c);
    }
    r
}

/// The text with the given characters.
pub fn text_of(chars: &Vec<char>) -> (r: String)
    ensures
        r@ == chars@,
{
    let mut r = String::new();
    let mut i: usize = 0;
    while i < chars.len()
        invariant
            i <= chars@.len(),
            r@ == chars@.take(i as int),
        decreases chars@.len() - i,
    {
        r.push(chars[i]);
        i += 1;
    }
    assert(chars@.take(chars@.len() as int) == chars@);
    r
}

/// The characters from `from` on, up to but not including `to`.
fn slice_of(chars: &Vec<char>, from: usize, to: usize) -> (r: Vec<char>)
    requires
        from <= to <= chars@.len(),
    ensures
        r@ == chars@.subrange(from as int, to as int),
{
    let mut r: Vec<char> = Vec::new();
    let mut i = from;
    while i < to
        invariant
            from <= i <= to <= chars@.len(),
            r@ == chars@.subrange(from as int, i as int),
        decreases to - i,
    {
        r.push(chars[i]);
        i += 1;
    }
    r
}

/// Whether `p` stands in `s` at position `i`.
fn stands_at(s: &Vec<char>, p: &Vec<char>, i: usize) -> (r: bool)
    requires
        i <= s@.len(),
    ensures
        r == occurs_at(s@, p@, i as int),
{
    if s.len() - i < p.len() {
        return false;
    }
    let mut k: usize = 0;
    while k < p.len()
        invariant
            i <= s@.len(),
            s@.len() == s.len(),
            p@.len() <= s@.len() - i,
            k <= p@.len(),
            forall|j: int| 0 <= j < k ==> s@[i + j] == #[trigger] p@[j],
        decreases p@.len() - k,
    {
        if s[i + k] != p[k] {
            assert(s@.subrange(i as int, i + p@.len())[k as int] != p@[k as int]);
            return false;
        }
        k += 1;
    }
    assert(s@.subrange(i as int, i + p@.len()) =~= p@);
    true
}

/// Whether `p` stands somewhere in `s`, as `str::contains` tells it.
pub fn contains(s: &str, p: &str) -> (r: bool)
    ensures
        r == occurs_in(s@, p@),
{
    let sc = chars_of(s);
    let pc = chars_of(p);
    let mut i: usize = 0;
    loop
        invariant
            sc@ == s@,
            pc@ == p@,
            i <= sc@.len(),
            forall|j: int| 0 <= j < i ==> !occurs_at(s@, p@, j),
        decreases sc@.len() - i,
    {
        if stands_at(&sc, &pc, i) {
            return true;
        }
        if i == sc.len() {
            return false;
        }
        i += 1;
    }
}

/// `s` without the copies of `p` at its start, as `str::trim_start_matches` gives it.
pub fn trim_start_matches(s: &str, p: &str) -> (r: String)
    ensures
        r@ == without_prefixes(s@, p@),
{
    let sc = chars_of(s);
    let pc = chars_of(p);
    let mut i: usize = 0;
    assert(sc@.skip(0) == sc@);
    loop
        invariant
            sc@ == s@,
            pc@ == p@,
            i <= sc@.len(),
            without_prefixes(sc@, pc@) == without_prefixes(sc@.skip(i as int), pc@),
        ensures
            i <= sc@.len(),
            without_prefixes(sc@, pc@) == sc@.subrange(i as int, sc@.len() as int),
        decreases sc@.len() - i,
    {
        let ghost rest = sc@.skip(i as int);
        let here = stands_at(&sc, &pc, i);
        proof {
            if pc@.len() <= rest.len() {
                assert(rest.subrange(0, pc@.len() as int) =~= sc@.subrange(i as int, i + pc@.len()));
                assert(rest.skip(pc@.len() as int) =~= sc@.skip(i + pc@.len()));
            }
            assert(rest =~= sc@.subrange(i as int, sc@.len() as int));
        }
        if pc.len() == 0 || !here {
            break;
        }
        assert(i + pc@.len() <= sc.len());
        i += pc.len();
    }
    text_of(&slice_of(&sc, i, sc.len()))
}

/// `s` without the characters `c` at its end, as `str::trim_end_matches` gives it.
pub fn trim_end_matches(s: &str, c: char) -> (r: String)
    ensures
        r@ == without_trailing(s@, c),
{
    let mut sc = chars_of(s);
    loop
        invariant
            without_trailing(s@, c) == without_trailing(sc@, c),
        ensures
            sc@ == without_trailing(s@, c),
        decreases sc@.len(),
    {
        let n = sc.len();
        if n == 0 || sc[n - 1] != c {
            break;
        }
        let ghost before = sc@;
        sc.pop();
        assert(sc@ == before.drop_last());
    }
    text_of(&sc)
}

/// The part of `s` before the first `c`, the first item that `str::split` gives.
pub fn before(s: &str, c: char) -> (r: String)
    ensures
        r@ == part_before(s@, c),
{
    let sc = chars_of(s);
    let mut r = String::new();
    let mut i: usize = 0;
    assert(sc@.skip(0) == sc@);
    assert(r@ + part_before(sc@.skip(0), c) == part_before(s@, c));
    while i < sc.len() && sc[i] != c
        invariant
            sc@ == s@,
            i <= sc@.len(),
            part_before(s@, c) == r@ + part_before(sc@.skip(i as int), c),
        ensures
            r@ == part_before(s@, c),
        decreases sc@.len() - i,
    {
        let ghost done = r@;
        proof {
            let rest = sc@.skip(i as int);
            assert(rest.skip(1) =~= sc@.skip(i + 1));
            assert(done + (seq![rest[0]] + part_before(rest.skip(1), c)) =~= done.push(rest[0])
                + part_before(rest.skip(1), c));
        }
        r.push(sc[i]);
        i += 1;
    }
    r
}

/// `s` with every copy of `from` replaced by `to`, as `str::replace` gives it.
pub fn replace(s: &str, from: &str, to: &str) -> (r: String)
    requires
        from@.len() > 0,
    ensures
        r@ == replaced(s@, from@, to@),
{
    let sc = chars_of(s);
    let fc = chars_of(from);
    let mut r = String::new();
    let mut i: usize = 0;
    assert(sc@.skip(0) == sc@);
    assert(r@ + replaced(sc@.skip(0), from@, to@) == replaced(s@, from@, to@));
    while i < sc.len()
        invariant
            sc@ == s@,
            fc@ == from@,
            from@.len() > 0,
            i <= sc@.len(),
            replaced(s@, from@, to@) == r@ + replaced(sc@.skip(i as int), from@, to@),
        decreases sc@.len() - i,
    {
        let ghost done = r@;
        let ghost rest = sc@.skip(i as int);
        let here = stands_at(&sc, &fc, i);
        proof {
            if fc@.len() <= rest.len() {
                assert(rest.subrange(0, fc@.len() as int) =~= sc@.subrange(i as int, i + fc@.len()));
            }
        }
        if here {
            proof {
                assert(rest.skip(fc@.len() as int) =~= sc@.skip(i + fc@.len()));
                assert(done + (to@ + replaced(rest.skip(fc@.len() as int), from@, to@)) =~= (done
                    + to@) + replaced(rest.skip(fc@.len() as int), from@, to@));
            }
            r.append(to);
            i += fc.len();
        } else {
            proof {
                assert(rest.skip(1) =~= sc@.skip(i + 1));
                assert(done + (seq![rest[0]] + replaced(rest.skip(1), from@, to@)) =~= done.push(
                    rest[0],
                ) + replaced(rest.skip(1), from@, to@));
            }
            r.push(sc[i]);
            i += 1;
        }
    }
    assert(r@ + replaced(sc@.skip(i as int), from@, to@) =~= r@);
    r
}

/// `s` without the white space at its end, as `str::trim_end` gives it.
pub fn trim_end(s: &str) -> (r: String)
    ensures
        r@ == trimmed_end(s@),
{
    let mut sc = chars_of(s);
    loop
        invariant
            trimmed_end(s@) == trimmed_end(sc@),
        ensures
            sc@ == trimmed_end(s@),
        decreases sc@.len(),
    {
        let n = sc.len();
        if n == 0 || !sc[n - 1].is_whitespace() {
            break;
        }
        let ghost before = sc@;
        sc.pop();
        assert(sc@ == before.drop_last());
    }
    text_of(&sc)
}

/// `s` without the white space around it, as `str::trim` gives it.
pub fn trim(s: &str) -> (r: String)
    ensures
        r@ == trimmed(s@),
{
    let sc = chars_of(s);
    let mut i: usize = 0;
    assert(sc@.skip(0) == sc@);
    while i < sc.len() && sc[i].is_whitespace()
        invariant
            sc@ == s@,
            i <= sc@.len(),
            trimmed_start(s@) == trimmed_start(sc@.skip(i as int)),
        ensures
            i <= sc@.len(),
            trimmed_start(s@) == sc@.skip(i as int),
        decreases sc@.len() - i,
    {
        assert(sc@.skip(i as int).skip(1) =~= sc@.skip(i + 1));
        i += 1;
    }
    assert(sc@.skip(i as int) =~= sc@.subrange(i as int, sc@.len() as int));
    trim_end(text_of(&slice_of(&sc, i, sc.len())).as_str())
}

/// The characters of each text.
pub open spec fn views(texts: Seq<String>) -> Seq<Seq<char>> {
    texts.map_values(|t: String| t@)
}

/// The texts with `sep` between each two, as `join` on a slice gives it.
pub fn join(texts: &Vec<String>, sep: &str) -> (r: String)
    ensures
        r@ == joined(views(texts@), sep@),
{
    let mut r = String::new();
    let mut i: usize = 0;
    let ghost parts = views(texts@);
    assert(r@ =~= joined(parts.take(0), sep@));
    while i < texts.len()
        invariant
            parts == views(texts@),
            i <= texts@.len(),
            r@ == joined(parts.take(i as int), sep@),
        decreases texts@.len() - i,
    {
        proof {
            assert(parts.take(i + 1).drop_last() =~= parts.take(i as int));
            assert(parts.take(i + 1).last() == texts@[i as int]@);
        }
        if i > 0 {
            r.append(sep);
        }
        r.append(texts[i].as_str());
        i += 1;
    }
    assert(parts.take(i as int) =~= parts);
    r
}

/// `s` with spaces after it, up to `width` characters, as the format `{:<width}`
/// writes it.
pub fn pad_right(s: &str, width: usize) -> (r: String)
    ensures
        r@ == padded(s@, width as int),
{
    let mut chars = chars_of(s);
    while chars.len() < width
        invariant
            padded(s@, width as int) == padded(chars@, width as int),
        decreases width - chars@.len(),
    {
        chars.push(' ');
    }
    text_of(&chars)
}

/// A number in decimal digits.
pub fn decimal_text(n: u64) -> (r: String)
    ensures
        r@ == decimal(n as nat),
    decreases n,
{
    let mut r = if n < 10 {
        String::new()
    } else {
        decimal_text(n / 10)
    };
    r.push((48 + (n % 10) as u8) as char);
    r
}

/// The code of a character, upper-case ASCII letters taken as lower-case ones.
fn fold(c: char) -> (r: u32)
    ensures
        r == folded(c),
{
    let code = c as u32;
    if 65 <= code && code <= 90 {
        code + 32
    } else {
        code
    }
}

/// Whether two texts are equal up to the case of ASCII letters, as
/// `str::eq_ignore_ascii_case` tells it.
pub fn eq_ignore_ascii_case(a: &str, b: &str) -> (r: bool)
    ensures
        r == same_ignoring_ascii_case(a@, b@),
{
    let ac = chars_of(a);
    let bc = chars_of(b);
    if ac.len() != bc.len() {
        return false;
    }
    let mut i: usize = 0;
    while i < ac.len()
        invariant
            ac@ == a@,
            bc@ == b@,
            ac@.len() == bc@.len(),
            i <= ac@.len(),
            forall|j: int| 0 <= j < i ==> folded(#[trigger] a@[j]) == folded(b@[j]),
        decreases ac@.len() - i,
    {
        if fold(ac[i]) != fold(bc[i]) {
            assert(folded(a@[i as int]) != folded(b@[i as int]));
            return false;
        }
        i += 1;
    }
    true
}

/// Whether two texts hold the same characters.
pub fn same(a: &str, b: &str) -> (r: bool)
    ensures
        r == (a@ == b@),
{
    let ac = chars_of(a);
    let bc = chars_of(b);
    if ac.len() != bc.len() {
        return false;
    }
    let mut i: usize = 0;
    while i < ac.len()
        invariant
            ac@ == a@,
            bc@ == b@,
            ac@.len() == bc@.len(),
            i <= ac@.len(),
            forall|j: int| 0 <= j < i ==> ac@[j] == bc@[j],
        decreases ac@.len() - i,
    {
        if ac[i] != bc[i] {
            return false;
        }
        i += 1;
    }
    assert(ac@ =~= bc@);
    true
}

/// Appends the UTF-16 code units of a character.
fn push_units(units: &mut Vec<u16>, c: char)
    ensures
        final(units)@ == old(units)@ + utf16_units(c),
{
    let code: u32 = c as u32;
    if code < 0x1_0000 {
        units.push(code as u16);
    } else {
        let high: u32 = 0xD800 + (code - 0x1_0000) / 0x400;
        let low: u32 = 0xDC00 + (code - 0x1_0000) % 0x400;
        units.push(high as u16);
        units.push(low as u16);
    }
    assert(units@ =~= old(units)@ + utf16_units(c));
}

/// The UTF-16 code units of a text and a zero after them: a wide string as
/// Windows takes it.
pub fn wide(s: &str) -> (r: Vec<u16>)
    ensures
        r@ == utf16(s@).push(0),
{
    let sc = chars_of(s);
    let mut r: Vec<u16> = Vec::new();
    let mut i: usize = 0;
    while i < sc.len()
        invariant
            sc@ == s@,
            i <= sc@.len(),
            r@ == utf16(sc@.take(i as int)),
        decreases sc@.len() - i,
    {
        proof {
            assert(sc@.take(i + 1).drop_last() =~= sc@.take(i as int));
        }
        push_units(&mut r, sc[i]);
        i += 1;
    }
    assert(sc@.take(i as int) =~= sc@);
    r.push(0);
    r
}

}
