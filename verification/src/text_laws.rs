//! What the text operations are for.

use crate::text::all_white_space;
use crate::text::decimal;
use crate::text::decimal_text;
use crate::text::is_white_space;
use crate::text::join;
use crate::text::joined;
use crate::text::lemma_trimmed_bounds;
use crate::text::same_text;
use crate::text::strip_prefix;
use crate::text::texts;
use crate::text::trim;
use crate::text::trim_end_char;
use crate::text::trimmed;
use crate::text::white_space_around_is_trimmed;
use crate::text::without_trailing;
use vstd::prelude::*;

verus! {

/// Two texts are the same where they have the same characters.
pub proof fn same_text_compares_characters(a: &str, b: &str, r: bool)
    requires
        call_ensures(same_text, (a, b), r),
    ensures
        r <==> a@.len() == b@.len() && forall|i: int| 0 <= i < a@.len() ==> a@[i] == b@[i],
{
    if a@.len() == b@.len() && forall|i: int| 0 <= i < a@.len() ==> a@[i] == b@[i] {
        assert(a@ =~= b@);
    }
}

/// A stripped prefix and what is left make up the text, and where nothing is left the text does
/// not begin with the prefix.
pub proof fn prefix_and_rest_make_up_the_text(s: &str, prefix: &str, rest: Option<&str>)
    requires
        call_ensures(strip_prefix, (s, prefix), rest),
    ensures
        match rest {
            Some(rest) => s@ == prefix@ + rest@,
            None => forall|tail: Seq<char>| s@ != #[trigger] (prefix@ + tail),
        },
{
    let n = prefix@.len() as int;
    match rest {
        Some(rest) => {
            assert(s@ =~= prefix@ + rest@);
        },
        None => {
            assert forall|tail: Seq<char>| s@ != #[trigger] (prefix@ + tail) by {
                if s@ == prefix@ + tail {
                    assert(s@.subrange(0, n) =~= prefix@);
                    assert(prefix@.is_prefix_of(s@));
                }
            }
        },
    }
}

/// A text is what is left of it once it is trimmed, between white space, and what is left neither
/// begins nor ends in white space.
pub proof fn trimming_takes_white_space_only(s: &str, r: &str)
    requires
        call_ensures(trim, (s,), r),
    ensures
        exists|before: Seq<char>, after: Seq<char>|
            s@ == #[trigger] (before + r@ + after) && all_white_space(before) && all_white_space(
                after,
            ),
        r@.len() > 0 ==> !is_white_space(r@[0]) && !is_white_space(r@.last()),
{
    if all_white_space(s@) {
        lemma_blank_is_trimmed_away(s@);
        assert(s@ =~= s@ + r@ + Seq::<char>::empty());
    } else {
        let bounds = lemma_trimmed_bounds(s@);
        assert(s@ =~= s@.take(bounds.0) + r@ + s@.skip(bounds.1));
    }
}

/// Nothing is left of white space.
proof fn lemma_blank_is_trimmed_away(s: Seq<char>)
    requires
        all_white_space(s),
    ensures
        trimmed(s) == Seq::<char>::empty(),
{
    let none = Seq::<char>::empty();
    white_space_around_is_trimmed(s, none, none);
    assert(s + none + none =~= s);
    assert(trimmed(none) == none);
}

/// A text between white space, with no white space of its own at its ends, is what is left once
/// the whole is trimmed.
pub proof fn trimming_leaves_the_text(before: Seq<char>, text: Seq<char>, after: Seq<char>)
    requires
        all_white_space(before),
        all_white_space(after),
        text.len() > 0 ==> !is_white_space(text[0]) && !is_white_space(text.last()),
    ensures
        trimmed(before + text + after) == text,
{
    white_space_around_is_trimmed(before, text, after);
    if text.len() > 0 {
        assert(!all_white_space(text));
        let bounds = lemma_trimmed_bounds(text);
        if bounds.0 > 0 {
            assert(is_white_space(text.take(bounds.0)[0]));
        }
        if bounds.1 < text.len() {
            let tail = text.skip(bounds.1);
            assert(is_white_space(tail[tail.len() - 1]));
        }
        assert(text.subrange(0, text.len() as int) =~= text);
    }
}

/// A text is what is left without a trailing character, followed by a run of the character, and
/// what is left does not end in it.
pub proof fn trailing_run_is_taken_whole(s: &str, c: char, r: &str)
    requires
        call_ensures(trim_end_char, (s, c), r),
    ensures
        r@.len() <= s@.len(),
        s@.take(r@.len() as int) == r@,
        forall|i: int| r@.len() <= i < s@.len() ==> #[trigger] s@[i] == c,
        r@.len() > 0 ==> r@.last() != c,
{
    lemma_without_trailing(s@, c);
}

/// The same of the model.
pub proof fn lemma_without_trailing(s: Seq<char>, c: char)
    ensures
        without_trailing(s, c).len() <= s.len(),
        s.take(without_trailing(s, c).len() as int) == without_trailing(s, c),
        forall|i: int| without_trailing(s, c).len() <= i < s.len() ==> #[trigger] s[i] == c,
        without_trailing(s, c).len() > 0 ==> without_trailing(s, c).last() != c,
    decreases s.len(),
{
    let r = without_trailing(s, c);
    if s.len() > 0 && s.last() == c {
        let rest = s.drop_last();
        lemma_without_trailing(rest, c);
        assert(s.take(r.len() as int) =~= rest.take(r.len() as int));
        assert forall|i: int| r.len() <= i < s.len() implies #[trigger] s[i] == c by {
            if i < rest.len() {
                assert(rest[i] == c);
            }
        }
    } else {
        assert(s.take(s.len() as int) =~= s);
    }
}

/// The texts that are joined stand one after the other with the separator between neighbours:
/// none make the empty text, one makes itself, and two runs of texts make theirs with the
/// separator between.
pub proof fn joining_puts_separators_between(
    first: Seq<Seq<char>>,
    second: Seq<Seq<char>>,
    separator: Seq<char>,
)
    ensures
        joined(Seq::empty(), separator) == Seq::<char>::empty(),
        first.len() == 1 ==> joined(first, separator) == first[0],
        first.len() > 0 && second.len() > 0 ==> joined(first + second, separator) == joined(
            first,
            separator,
        ) + separator + joined(second, separator),
    decreases second.len(),
{
    if first.len() == 1 {
        assert(first.drop_last() =~= Seq::empty());
        assert(joined(first, separator) =~= first[0]);
    }
    if first.len() > 0 && second.len() > 0 {
        let all = first + second;
        let rest = second.drop_last();
        assert(all.drop_last() =~= first + rest);
        assert(all.last() == second.last());
        if rest.len() == 0 {
            assert(first + rest =~= first);
            assert(joined(second, separator) =~= second.last());
        } else {
            joining_puts_separators_between(first, rest, separator);
        }
        assert(joined(all, separator) =~= joined(first, separator) + separator + joined(
            second,
            separator,
        ));
    }
}

/// What `join` gives is the joined texts of the strings themselves.
pub proof fn join_joins_the_strings(parts: &Vec<String>, separator: &str, r: String)
    requires
        call_ensures(join, (parts, separator), r),
    ensures
        r@ == joined(Seq::new(parts@.len(), |i: int| parts@[i]@), separator@),
{
    assert(texts(parts@) =~= Seq::new(parts@.len(), |i: int| parts@[i]@));
}

/// The number that a run of decimal digits stands for.
pub open spec fn number_of(digits: Seq<char>) -> int
    decreases digits.len(),
{
    if digits.len() == 0 {
        0
    } else {
        number_of(digits.drop_last()) * 10 + (digits.last() as int - '0' as int)
    }
}

/// A number is written in digits that stand for it, without leading zeros.
pub proof fn decimal_stands_for_the_number(n: nat)
    ensures
        decimal(n).len() > 0,
        forall|i: int| 0 <= i < decimal(n).len() ==> '0' <= #[trigger] decimal(n)[i] <= '9',
        number_of(decimal(n)) == n,
        decimal(n).len() > 1 ==> decimal(n)[0] != '0',
    decreases n,
{
    let text = decimal(n);
    if n < 10 {
        assert(text.drop_last() =~= Seq::empty());
        assert(number_of(text.drop_last()) == 0);
    } else {
        decimal_stands_for_the_number(n / 10);
        let lead = decimal(n / 10);
        assert(text.drop_last() =~= lead);
        assert forall|i: int| 0 <= i < text.len() implies '0' <= #[trigger] text[i] <= '9' by {
            if i < lead.len() {
                assert(text[i] == lead[i]);
            }
        }
        if lead.len() == 1 {
            assert(lead.drop_last() =~= Seq::empty());
            assert(number_of(lead.drop_last()) == 0);
            assert(number_of(lead) == lead[0] as int - '0' as int);
        }
        assert(text[0] == lead[0]);
    }
}

/// What `decimal_text` gives stands for the number.
pub proof fn decimal_text_stands_for_the_number(n: u32, r: String)
    requires
        call_ensures(decimal_text, (n,), r),
    ensures
        number_of(r@) == n,
        r@.len() > 1 ==> r@[0] != '0',
{
    decimal_stands_for_the_number(n as nat);
}

} // verus!
