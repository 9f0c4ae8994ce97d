//! Text: numerals, trimming, searching, splitting and comparing.

use crate::text::{
    append_numeral, ascii_lower, contains_text, digit, find_from, is_white_space, lemma_span_to,
    numeral, occurs, same_text, same_text_ignoring_ascii_case, span_to, split, stands_at, trim, trimmed,
    trimmed_end, trimmed_start, white_space,
};
use vstd::prelude::*;

verus! {

/// What decimal digits are worth.
pub open spec fn decimal_value(s: Seq<char>) -> int
    decreases s.len(),
{
    if s.len() == 0 {
        0
    } else {
        10 * decimal_value(s.drop_last()) + (s.last() as int - '0' as int)
    }
}

/// A numeral is made of decimal digits, is worth the number, and has no leading zero.
pub proof fn law_numerals_are_worth_their_number(n: nat)
    ensures
        numeral(n).len() > 0,
        decimal_value(numeral(n)) == n,
        forall|i: int| 0 <= i < numeral(n).len() ==> '0' <= #[trigger] numeral(n)[i] <= '9',
        numeral(n)[0] == '0' ==> numeral(n).len() == 1,
    decreases n,
{
    reveal_with_fuel(decimal_value, 2);
    if n >= 10 {
        law_numerals_are_worth_their_number(n / 10);
        let shorter = numeral(n / 10);
        assert(numeral(n) == shorter.push(digit((n % 10) as int)));
        assert(numeral(n).drop_last() =~= shorter);
        assert(numeral(n)[0] == shorter[0]);
        if shorter[0] == '0' {
            assert(shorter.drop_last() =~= Seq::empty());
            assert(decimal_value(shorter) == 0);
        }
    } else {
        assert(numeral(n).drop_last() =~= Seq::empty());
    }
}

/// Different numbers have different numerals.
pub proof fn law_numerals_tell_numbers_apart(a: nat, b: nat)
    requires
        numeral(a) == numeral(b),
    ensures
        a == b,
{
    law_numerals_are_worth_their_number(a);
    law_numerals_are_worth_their_number(b);
}

/// Appending a numeral keeps what was there and adds digits that are worth the number.
pub proof fn law_appended_digits_are_worth_the_number(out: &mut String, n: usize)
    requires
        call_ensures(append_numeral, (out, n), ()),
    ensures
        ({
            let before = old(out)@.len() as int;
            let added = final(out)@.skip(before);
            &&& old(out)@.is_prefix_of(final(out)@)
            &&& added.len() > 0
            &&& decimal_value(added) == n
            &&& forall|i: int| 0 <= i < added.len() ==> '0' <= #[trigger] added[i] <= '9'
            &&& added[0] == '0' ==> added.len() == 1
        }),
{
    law_numerals_are_worth_their_number(n as nat);
    assert(final(out)@.skip(old(out)@.len() as int) =~= numeral(n as nat));
}

proof fn lemma_trimmed_start(s: Seq<char>) -> (i: int)
    ensures
        0 <= i <= s.len(),
        trimmed_start(s) == s.skip(i),
        forall|j: int| 0 <= j < i ==> white_space(#[trigger] s[j]),
        i < s.len() ==> !white_space(s[i]),
    decreases s.len(),
{
    if s.len() > 0 && white_space(s.first()) {
        let rest = s.drop_first();
        let k = lemma_trimmed_start(rest);
        assert(rest.skip(k) =~= s.skip(k + 1));
        assert forall|j: int| 0 <= j < k + 1 implies white_space(#[trigger] s[j]) by {
            if j > 0 {
                assert(rest[j - 1] == s[j]);
            }
        }
        k + 1
    } else {
        assert(s.skip(0) =~= s);
        0
    }
}

proof fn lemma_trimmed_end(s: Seq<char>) -> (i: int)
    ensures
        0 <= i <= s.len(),
        trimmed_end(s) == s.take(i),
        forall|j: int| i <= j < s.len() ==> white_space(#[trigger] s[j]),
        i > 0 ==> !white_space(s[i - 1]),
    decreases s.len(),
{
    if s.len() > 0 && white_space(s.last()) {
        let rest = s.drop_last();
        let k = lemma_trimmed_end(rest);
        assert(rest.take(k) =~= s.take(k));
        assert forall|j: int| k <= j < s.len() implies white_space(#[trigger] s[j]) by {
            if j < s.len() - 1 {
                assert(rest[j] == s[j]);
            }
        }
        k
    } else {
        assert(s.take(s.len() as int) =~= s);
        s.len() as int
    }
}

/// `t` is what is left of `s` between `i` and `j` when only white space is taken from its ends.
pub open spec fn is_trimmed_at(s: Seq<char>, t: Seq<char>, i: int, j: int) -> bool {
    &&& 0 <= i <= j <= s.len()
    &&& t == s.subrange(i, j)
    &&& forall|k: int| 0 <= k < i || j <= k < s.len() ==> white_space(#[trigger] s[k])
    &&& t.len() > 0 ==> !white_space(t.first()) && !white_space(t.last())
}

/// Trimming takes white space from both ends, all of it and nothing else.
pub proof fn law_trimming_takes_white_space_from_both_ends(s: Seq<char>)
    ensures
        exists|i: int, j: int| is_trimmed_at(s, trimmed(s), i, j),
{
    let i = lemma_trimmed_start(s);
    let rest = s.skip(i);
    let k = lemma_trimmed_end(rest);
    assert(rest.take(k) =~= s.subrange(i, i + k));
    assert forall|q: int| 0 <= q < i || i + k <= q < s.len() implies white_space(
        #[trigger] s[q],
    ) by {
        if q >= i {
            assert(rest[q - i] == s[q]);
        }
    }
    assert(is_trimmed_at(s, trimmed(s), i, i + k));
}

/// What [`trim`] returns is its text without the white space at both ends.
pub proof fn law_trim_takes_white_space_from_both_ends(s: &str, r: &str)
    requires
        call_ensures(trim, (s,), r),
    ensures
        exists|i: int, j: int| is_trimmed_at(s@, r@, i, j),
{
    law_trimming_takes_white_space_from_both_ends(s@);
}

/// White space is what Unicode calls so.
pub proof fn law_white_space_is_that_of_unicode(c: char, r: bool)
    requires
        call_ensures(is_white_space, (c,), r),
    ensures
        r <==> {
            let code = c as u32;
            ||| 9 <= code <= 13
            ||| code == 32
            ||| code == 133
            ||| code == 160
            ||| code == 5760
            ||| 8192 <= code <= 8202
            ||| code == 8232
            ||| code == 8233
            ||| code == 8239
            ||| code == 8287
            ||| code == 12288
        },
{
}

/// Searching gives the first place of the character, or the length where there is none.
pub proof fn law_searching_gives_the_first_place(s: &str, c: char, from: usize, r: usize, j: int)
    requires
        from <= s@.len(),
        call_ensures(find_from, (s, c, from), r),
    ensures
        from <= r <= s@.len(),
        r < s@.len() ==> s@[r as int] == c,
        from <= j < r ==> s@[j] != c,
{
    let rest = s@.skip(from as int);
    lemma_span_to(rest, c);
    if from <= j < r {
        assert(rest[j - from] == s@[j]);
    }
    if r < s@.len() {
        assert(rest[r - from] == s@[r as int]);
    }
}

/// Parts with a separator between them.
pub open spec fn joined_by(parts: Seq<Seq<char>>, c: char) -> Seq<char>
    decreases parts.len(),
{
    if parts.len() == 0 {
        Seq::empty()
    } else if parts.len() == 1 {
        parts[0]
    } else {
        parts[0] + seq![c] + joined_by(parts.drop_first(), c)
    }
}

/// Splitting leaves parts without the separator, and joining them gives the text back.
pub proof fn law_joining_undoes_splitting(s: Seq<char>, c: char)
    ensures
        split(s, c).len() > 0,
        joined_by(split(s, c), c) == s,
        forall|i: int| 0 <= i < split(s, c).len() ==> !(#[trigger] split(s, c)[i]).contains(c),
    decreases s.len(),
{
    let i = span_to(s, c);
    lemma_span_to(s, c);
    let parts = split(s, c);
    if i < s.len() {
        let rest = s.skip(i + 1);
        law_joining_undoes_splitting(rest, c);
        assert(parts == seq![s.take(i)] + split(rest, c));
        assert(parts.drop_first() =~= split(rest, c));
        assert(s =~= s.take(i) + seq![c] + rest);
        assert forall|k: int| 0 <= k < parts.len() implies !(#[trigger] parts[k]).contains(c) by {
            if k > 0 {
                assert(parts[k] == split(rest, c)[k - 1]);
            }
        }
    } else {
        assert(parts == seq![s]);
    }
}

/// Splitting undoes joining: parts without the separator come back, each and in order.
pub proof fn law_splitting_undoes_joining(parts: Seq<Seq<char>>, c: char)
    requires
        parts.len() > 0,
        forall|i: int| 0 <= i < parts.len() ==> !(#[trigger] parts[i]).contains(c),
    ensures
        split(joined_by(parts, c), c) == parts,
    decreases parts.len(),
{
    let s = joined_by(parts, c);
    lemma_span_to(s, c);
    let i = span_to(s, c);
    let first = parts[0];
    if parts.len() == 1 {
        if i < s.len() {
            assert(first.contains(s[i]));
        }
        assert(seq![s] =~= parts);
    } else {
        let rest = parts.drop_first();
        assert forall|k: int| 0 <= k < rest.len() implies !(#[trigger] rest[k]).contains(c) by {
            assert(rest[k] == parts[k + 1]);
        }
        law_splitting_undoes_joining(rest, c);
        let n = first.len() as int;
        assert(s[n] == c);
        if i < n {
            assert(first[i] == s[i]);
            assert(first.contains(c));
        }
        assert(i == n);
        assert(s.take(n) =~= first);
        assert(s.skip(n + 1) =~= joined_by(rest, c));
        assert(split(s, c) == seq![s.take(n)] + split(s.skip(n + 1), c));
        assert(seq![first] + rest =~= parts);
    }
}

/// Two texts compare equal exactly when their characters are.
pub proof fn law_texts_compare_by_characters(a: &str, b: &str, r: bool)
    requires
        call_ensures(same_text, (a, b), r),
    ensures
        r <==> a@.len() == b@.len() && forall|i: int|
            0 <= i < a@.len() ==> #[trigger] a@[i] == b@[i],
{
    if a@.len() == b@.len() && forall|i: int| 0 <= i < a@.len() ==> #[trigger] a@[i] == b@[i] {
        assert(a@ =~= b@);
    }
}

/// Two characters are the same letter in whatever ASCII case.
pub open spec fn same_letter(x: char, y: char) -> bool {
    ||| x == y
    ||| 'A' <= x <= 'Z' && y as int == x as int + 32
    ||| 'A' <= y <= 'Z' && x as int == y as int + 32
}

/// Two texts compare equal without ASCII case exactly when their characters are the same letters.
pub proof fn law_texts_compare_by_letters(a: &str, b: &str, r: bool)
    requires
        call_ensures(same_text_ignoring_ascii_case, (a, b), r),
    ensures
        r <==> a@.len() == b@.len() && forall|i: int|
            0 <= i < a@.len() ==> same_letter(#[trigger] a@[i], b@[i]),
{
    let lower = |c: char| ascii_lower(c);
    let x = a@.map_values(lower);
    let y = b@.map_values(lower);
    if r {
        assert(x.len() == y.len());
        assert forall|i: int| 0 <= i < a@.len() implies same_letter(#[trigger] a@[i], b@[i]) by {
            assert(x[i] == y[i]);
            assert(x[i] == ascii_lower(a@[i]) && y[i] == ascii_lower(b@[i]));
        }
    }
    if a@.len() == b@.len() && forall|i: int|
        0 <= i < a@.len() ==> same_letter(#[trigger] a@[i], b@[i]) {
        assert forall|i: int| 0 <= i < a@.len() implies x[i] == y[i] by {
            assert(same_letter(a@[i], b@[i]));
        }
        assert(x =~= y);
    }
}

/// A pattern is found exactly when the text is something, the pattern, and something.
pub proof fn law_patterns_are_found_where_they_stand(s: &str, pattern: &str, r: bool)
    requires
        call_ensures(contains_text, (s, pattern), r),
    ensures
        r <==> exists|before: Seq<char>, after: Seq<char>|
            s@ == #[trigger] (before + pattern@ + after),
{
    assert(r == occurs(s@, pattern@));
    if r {
        let i = choose|i: int| stands_at(s@, pattern@, i);
        let before = s@.take(i);
        let after = s@.skip(i + pattern@.len());
        assert(s@ =~= before + pattern@ + after);
    }
    if exists|before: Seq<char>, after: Seq<char>| s@ == #[trigger] (before + pattern@ + after) {
        let (before, after) = choose|before: Seq<char>, after: Seq<char>|
            s@ == #[trigger] (before + pattern@ + after);
        let i = before.len() as int;
        assert(s@.subrange(i, i + pattern@.len()) =~= pattern@);
        assert(stands_at(s@, pattern@, i));
    }
}

} // verus!
