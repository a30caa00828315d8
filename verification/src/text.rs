//! Text operations on sequences of characters.

use vstd::prelude::*;
use vstd::string::*;

verus! {

/// The characters with the Unicode property White_Space.
pub open spec fn is_white_space(c: char) -> bool {
    ||| '\u{9}' <= c <= '\u{d}'
    ||| c == ' '
    ||| c == '\u{85}'
    ||| c == '\u{a0}'
    ||| c == '\u{1680}'
    ||| '\u{2000}' <= c <= '\u{200a}'
    ||| c == '\u{2028}'
    ||| c == '\u{2029}'
    ||| c == '\u{202f}'
    ||| c == '\u{205f}'
    ||| c == '\u{3000}'
}

/// `s` without the white space it begins with.
pub open spec fn trimmed_start(s: Seq<char>) -> Seq<char>
    decreases s.len(),
{
    if s.len() > 0 && is_white_space(s[0]) {
        trimmed_start(s.drop_first())
    } else {
        s
    }
}

/// `s` without the white space it ends in.
pub open spec fn trimmed_end(s: Seq<char>) -> Seq<char>
    decreases s.len(),
{
    if s.len() > 0 && is_white_space(s.last()) {
        trimmed_end(s.drop_last())
    } else {
        s
    }
}

/// `s` without the white space at either end.
pub open spec fn trimmed(s: Seq<char>) -> Seq<char> {
    trimmed_end(trimmed_start(s))
}

/// `s` without the run of `c` it ends in.
pub open spec fn without_trailing(s: Seq<char>, c: char) -> Seq<char>
    decreases s.len(),
{
    if s.len() > 0 && s.last() == c {
        without_trailing(s.drop_last(), c)
    } else {
        s
    }
}

/// What follows `prefix` in `s`, where `s` begins with it.
pub open spec fn stripped(s: Seq<char>, prefix: Seq<char>) -> Option<Seq<char>> {
    if prefix.is_prefix_of(s) {
        Some(s.skip(prefix.len() as int))
    } else {
        None
    }
}

/// The texts of `parts` one after the other with `separator` between neighbours.
pub open spec fn joined(parts: Seq<Seq<char>>, separator: Seq<char>) -> Seq<char>
    decreases parts.len(),
{
    if parts.len() == 0 {
        Seq::empty()
    } else {
        let rest = parts.drop_last();
        let lead = if rest.len() == 0 {
            Seq::empty()
        } else {
            joined(rest, separator) + separator
        };
        lead + parts.last()
    }
}

/// The decimal digit of `d`, for `d` below ten.
pub open spec fn digit(d: nat) -> char {
    if d == 0 {
        '0'
    } else if d == 1 {
        '1'
    } else if d == 2 {
        '2'
    } else if d == 3 {
        '3'
    } else if d == 4 {
        '4'
    } else if d == 5 {
        '5'
    } else if d == 6 {
        '6'
    } else if d == 7 {
        '7'
    } else if d == 8 {
        '8'
    } else {
        '9'
    }
}

/// `n` written in decimal, without leading zeros.
pub open spec fn decimal(n: nat) -> Seq<char>
    decreases n,
{
    if n < 10 {
        seq![digit(n)]
    } else {
        decimal(n / 10).push(digit(n % 10))
    }
}

/// The texts of a sequence of strings.
pub open spec fn texts(strings: Seq<String>) -> Seq<Seq<char>> {
    strings.map_values(|s: String| s@)
}

/// The text of a string that may be absent.
pub open spec fn opt_text(s: Option<String>) -> Option<Seq<char>> {
    match s {
        Some(s) => Some(s@),
        None => None,
    }
}

/// A text, or the empty text in place of one that is missing.
pub open spec fn text_or_empty(text: Option<Seq<char>>) -> Seq<char> {
    match text {
        Some(t) => t,
        None => Seq::empty(),
    }
}

/// The characters of `s`.
pub fn chars_of(s: &str) -> (chars: Vec<char>)
    ensures
        chars@ == s@,
{
    let mut chars: Vec<char> = Vec::new();
    for c in it: s.chars()
        invariant
            chars@ == it.seq().take(it.index() as int),
            it.seq() == s@,
    {
        chars.push(c);
    }
    chars
}

/// Whether `c` is white space.
pub fn char_is_white_space(c: char) -> (r: bool)
    ensures
        r == is_white_space(c),
{
    ('\u{9}' <= c && c <= '\u{d}') || c == ' ' || c == '\u{85}' || c == '\u{a0}' || c == '\u{1680}'
        || ('\u{2000}' <= c && c <= '\u{200a}') || c == '\u{2028}' || c == '\u{2029}' || c
        == '\u{202f}' || c == '\u{205f}' || c == '\u{3000}'
}

/// Whether `a` and `b` are the same text.
pub fn same_text(a: &str, b: &str) -> (r: bool)
    ensures
        r == (a@ == b@),
{
    let a_chars = chars_of(a);
    let b_chars = chars_of(b);
    if a_chars.len() != b_chars.len() {
        return false;
    }
    let mut i: usize = 0;
    while i < a_chars.len()
        invariant
            a_chars@ == a@,
            b_chars@ == b@,
            a_chars.len() == b_chars.len(),
            i <= a_chars.len(),
            forall|k: int| 0 <= k < i ==> a@[k] == b@[k],
        decreases a_chars.len() - i,
    {
        if a_chars[i] != b_chars[i] {
            return false;
        }
        i += 1;
    }
    assert(a@ =~= b@);
    true
}

/// What follows `prefix` in `s`, where `s` begins with it.
pub fn strip_prefix<'a>(s: &'a str, prefix: &str) -> (rest: Option<&'a str>)
    ensures
        match rest {
            Some(rest) => stripped(s@, prefix@) == Some(rest@),
            None => stripped(s@, prefix@) is None,
        },
{
    let chars = chars_of(s);
    let prefix_chars = chars_of(prefix);
    if chars.len() < prefix_chars.len() {
        return None;
    }
    let mut i: usize = 0;
    while i < prefix_chars.len()
        invariant
            chars@ == s@,
            prefix_chars@ == prefix@,
            prefix_chars.len() <= chars.len(),
            i <= prefix_chars.len(),
            forall|k: int| 0 <= k < i ==> s@[k] == prefix@[k],
        decreases prefix_chars.len() - i,
    {
        if chars[i] != prefix_chars[i] {
            assert(s@.subrange(0, prefix@.len() as int)[i as int] != prefix@[i as int]);
            return None;
        }
        i += 1;
    }
    assert(prefix@ =~= s@.subrange(0, prefix@.len() as int));
    assert(s@.skip(prefix@.len() as int) =~= s@.subrange(prefix@.len() as int, s@.len() as int));
    Some(s.substring_char(prefix_chars.len(), chars.len()))
}

/// `s` without the white space at either end.
pub fn trim(s: &str) -> (r: &str)
    ensures
        r@ == trimmed(s@),
{
    let chars = chars_of(s);
    let mut start: usize = 0;
    assert(s@.subrange(0, s@.len() as int) =~= s@);
    while start < chars.len() && char_is_white_space(chars[start])
        invariant
            chars@ == s@,
            start <= chars.len(),
            trimmed_start(s@) == trimmed_start(s@.subrange(start as int, s@.len() as int)),
        decreases chars.len() - start,
    {
        assert(s@.subrange(start as int, s@.len() as int).drop_first() =~= s@.subrange(
            start + 1,
            s@.len() as int,
        ));
        start += 1;
    }
    let mut end: usize = chars.len();
    while start < end && char_is_white_space(chars[end - 1])
        invariant
            chars@ == s@,
            start <= end <= chars.len(),
            trimmed(s@) == trimmed_end(s@.subrange(start as int, end as int)),
        decreases end,
    {
        assert(s@.subrange(start as int, end as int).drop_last() =~= s@.subrange(
            start as int,
            end - 1,
        ));
        end -= 1;
    }
    s.substring_char(start, end)
}

/// `s` without the run of `c` it ends in.
pub fn trim_end_char(s: &str, c: char) -> (r: &str)
    ensures
        r@ == without_trailing(s@, c),
{
    let chars = chars_of(s);
    let mut end: usize = chars.len();
    assert(s@.subrange(0, s@.len() as int) =~= s@);
    while 0 < end && chars[end - 1] == c
        invariant
            chars@ == s@,
            end <= chars.len(),
            without_trailing(s@, c) == without_trailing(s@.subrange(0, end as int), c),
        decreases end,
    {
        assert(s@.subrange(0, end as int).drop_last() =~= s@.subrange(0, end - 1));
        end -= 1;
    }
    s.substring_char(0, end)
}

/// The decimal digit of `d` as a string.
fn digit_text(d: u32) -> (r: &'static str)
    requires
        d < 10,
    ensures
        r@ == seq![digit(d as nat)],
{
    proof {
        reveal_strlit("0");
        reveal_strlit("1");
        reveal_strlit("2");
        reveal_strlit("3");
        reveal_strlit("4");
        reveal_strlit("5");
        reveal_strlit("6");
        reveal_strlit("7");
        reveal_strlit("8");
        reveal_strlit("9");
    }
    match d {
        0 => "0",
        1 => "1",
        2 => "2",
        3 => "3",
        4 => "4",
        5 => "5",
        6 => "6",
        7 => "7",
        8 => "8",
        _ => "9",
    }
}

/// `n` written in decimal.
pub fn decimal_text(n: u32) -> (r: String)
    ensures
        r@ == decimal(n as nat),
    decreases n,
{
    if n < 10 {
        digit_text(n).to_owned()
    } else {
        let mut text = decimal_text(n / 10);
        text.append(digit_text(n % 10));
        proof {
            assert(decimal((n / 10) as nat) + seq![digit((n % 10) as nat)] =~= decimal(n as nat));
        }
        text
    }
}

/// The strings of `parts` one after the other with `separator` between neighbours.
pub fn join(parts: &Vec<String>, separator: &str) -> (r: String)
    ensures
        r@ == joined(texts(parts@), separator@),
{
    let mut text = String::new();
    let mut i: usize = 0;
    while i < parts.len()
        invariant
            i <= parts.len(),
            text@ == joined(texts(parts@).take(i as int), separator@),
        decreases parts.len() - i,
    {
        let ghost done = texts(parts@).take(i as int);
        let ghost next = texts(parts@).take(i + 1);
        assert(next.drop_last() =~= done);
        if i != 0 {
            text.append(separator);
        }
        text.append(parts[i].as_str());
        assert(text@ =~= joined(next, separator@));
        i += 1;
    }
    assert(texts(parts@).take(parts@.len() as int) =~= texts(parts@));
    text
}

/// Two numbers with the same decimal text are the same number.
pub proof fn decimal_is_injective(m: nat, n: nat)
    requires
        decimal(m) == decimal(n),
    ensures
        m == n,
    decreases m,
{
    decimal_has_digits(m / 10);
    decimal_has_digits(n / 10);
    if m < 10 && n < 10 {
        assert(decimal(m)[0] == digit(m) && decimal(n)[0] == digit(n));
    } else if m >= 10 && n >= 10 {
        assert(decimal(m).last() == digit(m % 10) && decimal(n).last() == digit(n % 10));
        assert(decimal(m).drop_last() =~= decimal(m / 10));
        assert(decimal(n).drop_last() =~= decimal(n / 10));
        decimal_is_injective(m / 10, n / 10);
    } else if m < 10 {
        assert(decimal(m).len() == 1);
        assert(decimal(n).len() == decimal(n / 10).len() + 1);
    } else {
        assert(decimal(n).len() == 1);
        assert(decimal(m).len() == decimal(m / 10).len() + 1);
    }
}

/// A decimal text is not empty.
proof fn decimal_has_digits(n: nat)
    ensures
        decimal(n).len() >= 1,
{
}

// ---------------------------------------------------------------------------
// White space at the ends
// ---------------------------------------------------------------------------

/// Whether all of `s` is white space.
pub open spec fn all_white_space(s: Seq<char>) -> bool {
    forall|i: int| 0 <= i < s.len() ==> is_white_space(#[trigger] s[i])
}

/// What `trimmed_end` leaves: everything up to the last character that is not white space.
proof fn lemma_trimmed_end(s: Seq<char>, end: int)
    requires
        0 <= end <= s.len(),
        forall|i: int| end <= i < s.len() ==> is_white_space(#[trigger] s[i]),
        end > 0 ==> !is_white_space(s[end - 1]),
    ensures
        trimmed_end(s) == s.take(end),
    decreases s.len(),
{
    if end == s.len() {
        assert(s.take(end) =~= s);
    } else {
        assert(is_white_space(s[s.len() - 1]));
        assert(s.drop_last().take(end) =~= s.take(end));
        lemma_trimmed_end(s.drop_last(), end);
    }
}

/// What `trimmed_start` leaves: everything from the first character that is not white space on.
proof fn lemma_trimmed_start(s: Seq<char>, start: int)
    requires
        0 <= start <= s.len(),
        forall|i: int| 0 <= i < start ==> is_white_space(#[trigger] s[i]),
        start < s.len() ==> !is_white_space(s[start]),
    ensures
        trimmed_start(s) == s.skip(start),
    decreases s.len(),
{
    if start == 0 {
        assert(s.skip(start) =~= s);
    } else {
        assert(is_white_space(s[0]));
        assert(s.drop_first().skip(start - 1) =~= s.skip(start));
        assert forall|i: int| 0 <= i < start - 1 implies is_white_space(
            #[trigger] s.drop_first()[i],
        ) by {
            assert(is_white_space(s[i + 1]));
        }
        lemma_trimmed_start(s.drop_first(), start - 1);
    }
}

/// What `trimmed` leaves: everything from the first to the last character that is not white
/// space.
pub proof fn lemma_trimmed(s: Seq<char>, start: int, end: int)
    requires
        0 <= start < end <= s.len(),
        all_white_space(s.take(start)),
        all_white_space(s.skip(end)),
        !is_white_space(s[start]),
        !is_white_space(s[end - 1]),
    ensures
        trimmed(s) == s.subrange(start, end),
{
    assert forall|i: int| 0 <= i < start implies is_white_space(#[trigger] s[i]) by {
        assert(is_white_space(s.take(start)[i]));
    }
    lemma_trimmed_start(s, start);
    let rest = s.skip(start);
    assert forall|i: int| end - start <= i < rest.len() implies is_white_space(
        #[trigger] rest[i],
    ) by {
        assert(is_white_space(s.skip(end)[i + start - end]));
    }
    lemma_trimmed_end(rest, end - start);
    assert(rest.take(end - start) =~= s.subrange(start, end));
}

/// Nothing is left of white space.
proof fn lemma_trimmed_blank(s: Seq<char>)
    requires
        all_white_space(s),
    ensures
        trimmed(s) == Seq::<char>::empty(),
{
    lemma_trimmed_start(s, s.len() as int);
    lemma_trimmed_end(s.skip(s.len() as int), 0);
    assert(s.skip(s.len() as int).take(0) =~= Seq::empty());
}

/// Where the first character of `s` that is not white space stands, and where the last one ends.
pub proof fn lemma_trimmed_bounds(s: Seq<char>) -> (bounds: (int, int))
    requires
        !all_white_space(s),
    ensures
        0 <= bounds.0 < bounds.1 <= s.len(),
        all_white_space(s.take(bounds.0)),
        all_white_space(s.skip(bounds.1)),
        !is_white_space(s[bounds.0]),
        !is_white_space(s[bounds.1 - 1]),
        trimmed(s) == s.subrange(bounds.0, bounds.1),
    decreases s.len(),
{
    let bounds = if !is_white_space(s[0]) && !is_white_space(s.last()) {
        (0, s.len() as int)
    } else if is_white_space(s[0]) {
        let rest = s.drop_first();
        if all_white_space(rest) {
            assert forall|i: int| 0 <= i < s.len() implies is_white_space(#[trigger] s[i]) by {
                if i > 0 {
                    assert(is_white_space(rest[i - 1]));
                }
            }
        }
        let inner = lemma_trimmed_bounds(rest);
        assert forall|i: int| 0 <= i < inner.0 + 1 implies is_white_space(
            #[trigger] s.take(inner.0 + 1)[i],
        ) by {
            if i > 0 {
                assert(is_white_space(rest.take(inner.0)[i - 1]));
            }
        }
        assert(s.skip(inner.1 + 1) =~= rest.skip(inner.1));
        (inner.0 + 1, inner.1 + 1)
    } else {
        let rest = s.drop_last();
        if all_white_space(rest) {
            assert forall|i: int| 0 <= i < s.len() implies is_white_space(#[trigger] s[i]) by {
                if i < s.len() - 1 {
                    assert(is_white_space(rest[i]));
                }
            }
        }
        let inner = lemma_trimmed_bounds(rest);
        assert(s.take(inner.0) =~= rest.take(inner.0));
        assert forall|i: int| 0 <= i < s.skip(inner.1).len() implies is_white_space(
            #[trigger] s.skip(inner.1)[i],
        ) by {
            if i + inner.1 < s.len() - 1 {
                assert(is_white_space(rest.skip(inner.1)[i]));
            }
        }
        inner
    };
    lemma_trimmed(s, bounds.0, bounds.1);
    bounds
}

/// White space around a text makes no difference once it is trimmed.
pub proof fn white_space_around_is_trimmed(before: Seq<char>, s: Seq<char>, after: Seq<char>)
    requires
        all_white_space(before),
        all_white_space(after),
    ensures
        trimmed(before + s + after) == trimmed(s),
{
    let all = before + s + after;
    let n = before.len() as int;
    if all_white_space(s) {
        assert forall|i: int| 0 <= i < all.len() implies is_white_space(#[trigger] all[i]) by {
            if i < n {
                assert(is_white_space(before[i]));
            } else if i < n + s.len() {
                assert(is_white_space(s[i - n]));
            } else {
                assert(is_white_space(after[i - n - s.len()]));
            }
        }
        lemma_trimmed_blank(all);
        lemma_trimmed_blank(s);
    } else {
        let inner = lemma_trimmed_bounds(s);
        let (start, end) = (n + inner.0, n + inner.1);
        assert forall|i: int| 0 <= i < start implies is_white_space(#[trigger] all.take(start)[i]) by {
            if i < n {
                assert(is_white_space(before[i]));
            } else {
                assert(is_white_space(s.take(inner.0)[i - n]));
            }
        }
        assert forall|i: int| 0 <= i < all.skip(end).len() implies is_white_space(
            #[trigger] all.skip(end)[i],
        ) by {
            if i + end < n + s.len() {
                assert(is_white_space(s.skip(inner.1)[i]));
            } else {
                assert(is_white_space(after[i + end - n - s.len()]));
            }
        }
        lemma_trimmed(all, start, end);
        assert(all.subrange(start, end) =~= s.subrange(inner.0, inner.1));
    }
}

} // verus!
