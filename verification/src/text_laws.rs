//! What holds of texts that are searched, trimmed, joined and encoded.

use vstd::prelude::*;
use crate::text::{
    decimal, differ_first_at, digit_char, folded, is_white_space, joined, occurs_at, occurs_in,
    padded, part_before, replaced, same_ignoring_ascii_case, text_before, trimmed, trimmed_end,
    trimmed_start, utf16, utf16_units, without_prefixes, without_trailing,
};

verus! {

/// A text holds a pattern exactly if it is made of something, the pattern, and
/// something.
pub proof fn law_a_text_holds_what_it_is_made_of(s: Seq<char>, p: Seq<char>)
    ensures
        occurs_in(s, p) <==> exists|a: Seq<char>, b: Seq<char>| s == #[trigger] ((a + p) + b),
{
    if occurs_in(s, p) {
        let i = choose|i: int| occurs_at(s, p, i);
        assert(s =~= (s.take(i) + p) + s.skip(i + p.len()));
    }
    if exists|a: Seq<char>, b: Seq<char>| s == #[trigger] ((a + p) + b) {
        let (a, b) = choose|a: Seq<char>, b: Seq<char>| s == #[trigger] ((a + p) + b);
        assert(s.subrange(a.len() as int, (a.len() + p.len()) as int) =~= p);
        assert(occurs_at(s, p, a.len() as int));
    }
}

/// The text starts with the pattern.
pub open spec fn starts_with(s: Seq<char>, p: Seq<char>) -> bool {
    s.len() >= p.len() && s.take(p.len() as int) == p
}

/// A copy of the pattern in front of a text goes with the others; a text that does
/// not start with the pattern stays as it is.
pub proof fn law_prefixes_are_stripped(s: Seq<char>, p: Seq<char>)
    requires
        p.len() > 0,
    ensures
        without_prefixes(p + s, p) == without_prefixes(s, p),
        !starts_with(s, p) ==> without_prefixes(s, p) == s,
        !starts_with(without_prefixes(s, p), p),
    decreases s.len(),
{
    assert((p + s).subrange(0, p.len() as int) =~= p);
    assert((p + s).skip(p.len() as int) =~= s);
    if occurs_at(s, p, 0) {
        law_prefixes_are_stripped(s.skip(p.len() as int), p);
        assert(s.take(p.len() as int) =~= s.subrange(0, p.len() as int));
    } else if starts_with(s, p) {
        assert(s.take(p.len() as int) =~= s.subrange(0, p.len() as int));
    }
}

/// What is left of a text without the characters that it ends in is its beginning;
/// what is gone are only those characters, and no such one is left at the end.
pub proof fn law_trailing_characters_are_stripped(s: Seq<char>, c: char)
    ensures
        ({
            let r = without_trailing(s, c);
            &&& r.len() <= s.len()
            &&& r == s.take(r.len() as int)
            &&& forall|i: int| r.len() <= i < s.len() ==> #[trigger] s[i] == c
            &&& r.len() > 0 ==> r[r.len() - 1] != c
        }),
    decreases s.len(),
{
    if s.len() > 0 && s.last() == c {
        let front = s.drop_last();
        law_trailing_characters_are_stripped(front, c);
        let r = without_trailing(front, c);
        assert(r =~= s.take(r.len() as int));
        assert forall|i: int| r.len() <= i < s.len() implies #[trigger] s[i] == c by {
            if i < front.len() {
                assert(front[i] == s[i]);
            }
        }
    } else {
        assert(s =~= s.take(s.len() as int));
    }
}

/// The part before a character is the beginning of the text. It does not hold the
/// character, and ends where the text does or where the character stands.
pub proof fn law_the_part_before_ends_at_the_first_one(s: Seq<char>, c: char)
    ensures
        ({
            let r = part_before(s, c);
            &&& r.len() <= s.len()
            &&& r == s.take(r.len() as int)
            &&& forall|i: int| 0 <= i < r.len() ==> #[trigger] r[i] != c
            &&& r.len() < s.len() ==> s[r.len() as int] == c
        }),
    decreases s.len(),
{
    if s.len() > 0 && s[0] != c {
        let rest = s.skip(1);
        law_the_part_before_ends_at_the_first_one(rest, c);
        let tail = part_before(rest, c);
        let r = part_before(s, c);
        assert(r == seq![s[0]] + tail);
        assert forall|i: int| 0 <= i < r.len() implies r[i] == s[i] && #[trigger] r[i] != c by {
            if i > 0 {
                assert(r[i] == tail[i - 1]);
                assert(tail[i - 1] == rest[i - 1]);
            }
        }
        assert(r =~= s.take(r.len() as int));
        if r.len() < s.len() {
            assert(rest[tail.len() as int] == s[r.len() as int]);
        }
    } else {
        assert(part_before(s, c) =~= s.take(0));
    }
}

/// A pattern at the start of a text is replaced, and the search goes on behind it.
/// Where the text starts otherwise, its first character stays. A text that does not
/// hold the pattern stays as it is.
pub proof fn law_patterns_are_replaced(s: Seq<char>, c: char, from: Seq<char>, to: Seq<char>)
    requires
        from.len() > 0,
    ensures
        replaced(from + s, from, to) == to + replaced(s, from, to),
        !starts_with(seq![c] + s, from) ==> replaced(seq![c] + s, from, to) == seq![c] + replaced(
            s,
            from,
            to,
        ),
        !occurs_in(s, from) ==> replaced(s, from, to) == s,
    decreases s.len(),
{
    assert((from + s).subrange(0, from.len() as int) =~= from);
    assert((from + s).skip(from.len() as int) =~= s);
    let cs = seq![c] + s;
    if !starts_with(cs, from) {
        if occurs_at(cs, from, 0) {
            assert(cs.take(from.len() as int) =~= cs.subrange(0, from.len() as int));
        }
        assert(cs.skip(1) =~= s);
    }
    if !occurs_in(s, from) && s.len() > 0 {
        let rest = s.skip(1);
        assert(!occurs_at(s, from, 0));
        if occurs_in(rest, from) {
            let i = choose|i: int| occurs_at(rest, from, i);
            assert(rest.subrange(i, i + from.len()) =~= s.subrange(i + 1, i + 1 + from.len()));
            assert(occurs_at(s, from, i + 1));
        }
        law_patterns_are_replaced(rest, c, from, to);
        assert(seq![s[0]] + rest =~= s);
    }
}

/// Spaces, tabs and line ends are white space. The printable characters of ASCII
/// are not.
pub proof fn law_white_space(c: char)
    ensures
        c == ' ' || c == '\t' || c == '\n' || c == '\r' ==> is_white_space(c),
        33 <= c as int <= 126 ==> !is_white_space(c),
{
}

/// What is left of a text without the white space at its end is its beginning. What
/// is gone is white space, and none is left at the end.
pub proof fn law_white_space_at_the_end_is_stripped(s: Seq<char>)
    ensures
        ({
            let r = trimmed_end(s);
            &&& r.len() <= s.len()
            &&& r == s.take(r.len() as int)
            &&& forall|i: int| r.len() <= i < s.len() ==> is_white_space(#[trigger] s[i])
            &&& r.len() > 0 ==> !is_white_space(r[r.len() - 1])
        }),
    decreases s.len(),
{
    if s.len() > 0 && is_white_space(s.last()) {
        let front = s.drop_last();
        law_white_space_at_the_end_is_stripped(front);
        let r = trimmed_end(front);
        assert(r =~= s.take(r.len() as int));
        assert forall|i: int| r.len() <= i < s.len() implies is_white_space(#[trigger] s[i]) by {
            if i < front.len() {
                assert(front[i] == s[i]);
            }
        }
    } else {
        assert(s =~= s.take(s.len() as int));
    }
}

proof fn lemma_trimmed_start(s: Seq<char>)
    ensures
        ({
            let r = trimmed_start(s);
            let k = s.len() - r.len();
            &&& 0 <= k <= s.len()
            &&& r == s.skip(k)
            &&& forall|i: int| 0 <= i < k ==> is_white_space(#[trigger] s[i])
            &&& r.len() > 0 ==> !is_white_space(r[0])
        }),
    decreases s.len(),
{
    if s.len() > 0 && is_white_space(s[0]) {
        let rest = s.skip(1);
        lemma_trimmed_start(rest);
        let r = trimmed_start(rest);
        let k = s.len() - r.len();
        assert(rest.skip(k - 1) =~= s.skip(k));
        assert forall|i: int| 0 <= i < k implies is_white_space(#[trigger] s[i]) by {
            if i > 0 {
                assert(rest[i - 1] == s[i]);
            }
        }
    } else {
        assert(s =~= s.skip(0));
    }
}

/// A trimmed text stands in the text with only white space around it, and neither
/// starts nor ends in white space.
pub proof fn law_white_space_around_is_stripped(s: Seq<char>)
    ensures
        ({
            let r = trimmed(s);
            &&& r.len() > 0 ==> !is_white_space(r[0]) && !is_white_space(r[r.len() - 1])
            &&& exists|a: int, b: int|
                0 <= a <= b <= s.len() && r == #[trigger] s.subrange(a, b) && (forall|i: int|
                    0 <= i < a || b <= i < s.len() ==> is_white_space(#[trigger] s[i]))
        }),
        trimmed(s).len() == 0 <==> forall|i: int| 0 <= i < s.len() ==> is_white_space(#[trigger] s[i]),
{
    lemma_trimmed_start(s);
    let t = trimmed_start(s);
    law_white_space_at_the_end_is_stripped(t);
    let r = trimmed(s);
    let a = s.len() - t.len();
    let b = a + r.len();
    assert(r =~= s.subrange(a, b));
    assert forall|i: int| 0 <= i < a || b <= i < s.len() implies is_white_space(
        #[trigger] s[i],
    ) by {
        if b <= i {
            assert(t[i - a] == s[i]);
        }
    }
    if r.len() > 0 {
        assert(r[0] == t[0]);
        assert(s[a] == r[0]);
    }
}

/// Joining nothing gives nothing, one part is joined to itself, and two lists of
/// parts are joined by joining each and putting the separator between the two.
pub proof fn law_parts_are_joined(
    part: Seq<char>,
    left: Seq<Seq<char>>,
    right: Seq<Seq<char>>,
    sep: Seq<char>,
)
    ensures
        joined(Seq::empty(), sep) == Seq::<char>::empty(),
        joined(seq![part], sep) == part,
        left.len() > 0 && right.len() > 0 ==> joined(left + right, sep) == joined(left, sep) + sep
            + joined(right, sep),
    decreases right.len(),
{
    if left.len() > 0 && right.len() > 0 {
        let all = left + right;
        assert(all.drop_last() =~= left + right.drop_last());
        assert(all.last() == right.last());
        if right.len() == 1 {
            assert(left + right.drop_last() =~= left);
            assert(joined(right, sep) == right[0]);
        } else {
            law_parts_are_joined(part, left, right.drop_last(), sep);
            assert(joined(all, sep) =~= joined(left, sep) + sep + (joined(right.drop_last(), sep)
                + sep + right.last()));
        }
    }
}

/// A padded text starts with the text, is at least as long as the width, and holds
/// nothing more than the spaces that this takes.
pub proof fn law_texts_are_padded_with_spaces(s: Seq<char>, width: int)
    ensures
        ({
            let r = padded(s, width);
            &&& r.len() == if s.len() < width {
                width
            } else {
                s.len() as int
            }
            &&& r.take(s.len() as int) == s
            &&& forall|i: int| s.len() <= i < r.len() ==> #[trigger] r[i] == ' '
        }),
    decreases width - s.len(),
{
    let r = padded(s, width);
    if s.len() < width {
        let more = s.push(' ');
        law_texts_are_padded_with_spaces(more, width);
        assert(r.take(s.len() as int) =~= r.take(more.len() as int).take(s.len() as int));
        assert(more.take(s.len() as int) =~= s);
        assert(r.take(more.len() as int)[s.len() as int] == ' ');
    } else {
        assert(r.take(s.len() as int) =~= s);
    }
}

/// The number that decimal digits stand for.
pub open spec fn number(s: Seq<char>) -> int
    decreases s.len(),
{
    if s.len() == 0 {
        0
    } else {
        number(s.drop_last()) * 10 + (s.last() as int - '0' as int)
    }
}

/// A number is written in decimal digits that stand for it, without leading zeros.
pub proof fn law_numbers_are_written_in_decimal(n: nat)
    ensures
        number(decimal(n)) == n,
        decimal(n).len() > 0,
        forall|i: int| 0 <= i < decimal(n).len() ==> '0' <= #[trigger] decimal(n)[i] <= '9',
        n > 0 ==> decimal(n)[0] != '0',
    decreases n,
{
    let s = decimal(n);
    if n >= 10 {
        law_numbers_are_written_in_decimal(n / 10);
        let front = decimal(n / 10);
        assert(s.drop_last() =~= front);
        assert(digit_char((n % 10) as int) as int == 48 + n % 10);
        assert forall|i: int| 0 <= i < s.len() implies '0' <= #[trigger] s[i] <= '9' by {
            if i < front.len() {
                assert(front[i] == s[i]);
            }
        }
    } else {
        assert(digit_char(n as int) as int == 48 + n);
        assert(s.drop_last() =~= Seq::empty());
        assert(number(s.drop_last()) == 0);
    }
}

/// The same character, or the same letter of ASCII in the other case.
pub open spec fn alike(a: char, b: char) -> bool {
    ||| a == b
    ||| 'A' <= a <= 'Z' && b as int == a as int + 32
    ||| 'A' <= b <= 'Z' && a as int == b as int + 32
}

/// Two texts are the same up to the case of ASCII letters exactly if they are of
/// one length and alike at each place.
pub proof fn law_case_is_ignored_letter_by_letter(a: Seq<char>, b: Seq<char>)
    ensures
        same_ignoring_ascii_case(a, b) <==> a.len() == b.len() && forall|i: int|
            0 <= i < a.len() ==> alike(#[trigger] a[i], b[i]),
{
    if same_ignoring_ascii_case(a, b) {
        assert forall|i: int| 0 <= i < a.len() implies alike(#[trigger] a[i], b[i]) by {
            assert(folded(a[i]) == folded(b[i]));
        }
    }
    if a.len() == b.len() && forall|i: int| 0 <= i < a.len() ==> alike(#[trigger] a[i], b[i]) {
        assert forall|i: int| 0 <= i < a.len() implies folded(#[trigger] a[i]) == folded(b[i]) by {
            assert(alike(a[i], b[i]));
        }
    }
}

/// The UTF-16 code units of two texts follow one another.
pub proof fn law_texts_are_encoded_one_after_the_other(a: Seq<char>, b: Seq<char>)
    ensures
        utf16(a + b) == utf16(a) + utf16(b),
    decreases b.len(),
{
    if b.len() == 0 {
        assert(a + b =~= a);
        assert(utf16(a) + utf16(b) =~= utf16(a));
    } else {
        law_texts_are_encoded_one_after_the_other(a, b.drop_last());
        assert((a + b).drop_last() =~= a + b.drop_last());
        assert(utf16(a + b) =~= utf16(a) + (utf16(b.drop_last()) + utf16_units(b.last())));
    }
}

/// A character of the basic plane is one code unit, its own code. Any other is a high
/// surrogate and a low one, which hold ten bits each of what its code exceeds that
/// plane by.
pub proof fn law_a_character_is_one_unit_or_a_pair(c: char)
    ensures
        utf16(seq![c]) == utf16_units(c),
        (c as int) < 0x1_0000 ==> utf16(seq![c]).len() == 1 && utf16(seq![c])[0] == c as int,
        (c as int) >= 0x1_0000 ==> ({
            let u = utf16(seq![c]);
            &&& u.len() == 2
            &&& 0xD800 <= u[0] < 0xDC00
            &&& 0xDC00 <= u[1] < 0xE000
            &&& (u[0] - 0xD800) * 0x400 + (u[1] - 0xDC00) + 0x1_0000 == c as int
        }),
{
    let s = seq![c];
    let none = s.drop_last();
    assert(none =~= Seq::empty());
    assert(utf16(none) =~= Seq::empty());
    assert(s.last() == c);
    assert(utf16(s) == utf16(none) + utf16_units(s.last()));
    assert(utf16(s) =~= utf16_units(c));
}

/// A text comes before another by the first character that differs: nothing comes
/// before the empty text, it comes before every other, characters that both start
/// with do not count, and of two that start otherwise the one with the smaller code
/// comes first.
pub proof fn law_texts_are_ordered_by_the_first_difference(a: Seq<char>, b: Seq<char>, c: char)
    ensures
        !text_before(a, Seq::empty()),
        b.len() > 0 ==> text_before(Seq::empty(), b),
        text_before(seq![c] + a, seq![c] + b) <==> text_before(a, b),
        a.len() > 0 && b.len() > 0 && a[0] != b[0] ==> (text_before(a, b) <==> (a[0] as int) < (
        b[0] as int)),
{
    let none = Seq::<char>::empty();
    if b.len() > 0 {
        assert(none.take(0) =~= b.take(0));
        assert(differ_first_at(none, b, 0));
    }
    let (ca, cb) = (seq![c] + a, seq![c] + b);
    if text_before(a, b) {
        let i = choose|i: int| differ_first_at(a, b, i);
        assert(ca.take(i + 1) =~= seq![c] + a.take(i));
        assert(cb.take(i + 1) =~= seq![c] + b.take(i));
        assert(differ_first_at(ca, cb, i + 1));
    }
    if text_before(ca, cb) {
        let i = choose|i: int| differ_first_at(ca, cb, i);
        assert(ca[0] == cb[0]);
        assert(i > 0);
        assert(a.take(i - 1) =~= ca.take(i).skip(1));
        assert(b.take(i - 1) =~= cb.take(i).skip(1));
        assert(differ_first_at(a, b, i - 1));
    }
    if a.len() > 0 && b.len() > 0 && a[0] != b[0] {
        if text_before(a, b) {
            let i = choose|i: int| differ_first_at(a, b, i);
            if i > 0 {
                assert(a.take(i)[0] == b.take(i)[0]);
            }
        }
        if (a[0] as int) < (b[0] as int) {
            assert(a.take(0) =~= b.take(0));
            assert(differ_first_at(a, b, 0));
        }
    }
}

}
