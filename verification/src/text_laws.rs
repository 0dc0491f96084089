//! What splitting, trimming and joining a text give, in terms of the text.

use crate::text::{
    decimal, digit_value, digits_value, first_of, joined, lemma_word_len, signed_value,
    split_at_first, trimmed, trimmed_end, trimmed_start, unsigned_value, white, word_len, words,
};
use vstd::prelude::*;

verus! {

broadcast use vstd::group_vstd_default;

/// Nothing but white space stands in the text.
pub open spec fn all_white(s: Seq<char>) -> bool {
    forall|i: int| 0 <= i < s.len() ==> white(#[trigger] s[i])
}

/// No white space stands in the text.
pub open spec fn no_white(s: Seq<char>) -> bool {
    forall|i: int| 0 <= i < s.len() ==> !white(#[trigger] s[i])
}

proof fn lemma_word_len_no_white(s: Seq<char>)
    requires
        no_white(s),
    ensures
        word_len(s) == s.len(),
    decreases s.len(),
{
    if s.len() > 0 {
        assert forall|i: int| 0 <= i < s.drop_first().len() implies !white(
            #[trigger] s.drop_first()[i],
        ) by {
            assert(!white(s[i + 1]));
        }
        lemma_word_len_no_white(s.drop_first());
    }
}

proof fn lemma_word_len_split(a: Seq<char>, b: Seq<char>)
    requires
        b.len() > 0,
        white(b[0]),
    ensures
        word_len(a + b) == word_len(a),
    decreases a.len(),
{
    if a.len() == 0 {
        assert(a + b =~= b);
    } else {
        assert((a + b)[0] == a[0]);
        if !white(a[0]) {
            assert((a + b).drop_first() =~= a.drop_first() + b);
            lemma_word_len_split(a.drop_first(), b);
        }
    }
}

/// A text without white space is its own only word, and a text without
/// anything else has none.
pub proof fn law_a_word_is_itself(word: Seq<char>, space: Seq<char>)
    requires
        word.len() > 0,
        no_white(word),
        all_white(space),
    ensures
        words(word) == seq![word],
        words(space) == Seq::<Seq<char>>::empty(),
{
    let rest = word.drop_first();
    assert(!white(word[0]));
    assert forall|i: int| 0 <= i < rest.len() implies !white(#[trigger] rest[i]) by {
        assert(!white(word[i + 1]));
    }
    lemma_word_len_no_white(rest);
    assert(word.take(1 + word_len(rest)) =~= word);
    assert(rest.skip(word_len(rest)) =~= Seq::empty());
    assert(words(rest.skip(word_len(rest))) =~= Seq::empty());
    assert(words(word) == seq![word.take(1 + word_len(rest))] + words(rest.skip(word_len(rest))));
    assert(words(word) =~= seq![word]);
    lemma_no_words(space);
}

proof fn lemma_no_words(space: Seq<char>)
    requires
        all_white(space),
    ensures
        words(space) == Seq::<Seq<char>>::empty(),
    decreases space.len(),
{
    if space.len() > 0 {
        assert(white(space[0]));
        assert forall|i: int| 0 <= i < space.drop_first().len() implies white(
            #[trigger] space.drop_first()[i],
        ) by {
            assert(white(space[i + 1]));
        }
        lemma_no_words(space.drop_first());
    }
}

/// White space parts the words: those before it come first, those behind it
/// follow.
pub proof fn law_white_space_parts_words(a: Seq<char>, c: char, b: Seq<char>)
    requires
        white(c),
    ensures
        words(a.push(c) + b) == words(a) + words(b),
    decreases a.len(),
{
    let s = a.push(c) + b;
    let tail = seq![c] + b;
    assert(s =~= a + tail);
    if a.len() == 0 {
        assert(s.drop_first() =~= b);
        assert(words(a) + words(b) =~= words(b));
    } else if white(a[0]) {
        assert(s.drop_first() =~= a.drop_first().push(c) + b);
        law_white_space_parts_words(a.drop_first(), c, b);
    } else {
        let rest = a.drop_first();
        let n = word_len(rest);
        lemma_word_len(rest);
        assert(s.drop_first() =~= rest + tail);
        lemma_word_len_split(rest, tail);
        assert(s.take(1 + n) =~= a.take(1 + n));
        assert(s.drop_first().skip(n) =~= rest.skip(n).push(c) + b);
        law_white_space_parts_words(rest.skip(n), c, b);
        assert(words(s) =~= words(a) + words(b));
    }
}

proof fn lemma_first_of_bounds(s: Seq<char>, c: char)
    ensures
        0 <= first_of(s, c) <= s.len(),
        forall|k: int| 0 <= k < first_of(s, c) ==> (#[trigger] s[k]) != c,
        first_of(s, c) < s.len() ==> s[first_of(s, c)] == c,
    decreases s.len(),
{
    if s.len() > 0 && s[0] != c {
        lemma_first_of_bounds(s.drop_first(), c);
        let n = first_of(s, c);
        assert forall|k: int| 0 <= k < n implies (#[trigger] s[k]) != c by {
            if k > 0 {
                assert(s.drop_first()[k - 1] == s[k]);
            }
        }
        if n < s.len() {
            assert(s.drop_first()[n - 1] == s[n]);
        }
    }
}

/// A text is parted at the first place where the character stands, and is not
/// parted exactly where it stands nowhere.
pub proof fn law_parted_at_the_first(s: Seq<char>, c: char)
    ensures
        split_at_first(s, c) is None <==> !s.contains(c),
        split_at_first(s, c) matches Some((left, right)) ==> s == left.push(c) + right
            && !left.contains(c),
{
    lemma_first_of_bounds(s, c);
    let at = first_of(s, c);
    if at < s.len() {
        assert(s[at] == c);
        assert(s =~= s.take(at).push(c) + s.skip(at + 1));
        if s.take(at).contains(c) {
            let k = choose|k: int| 0 <= k < s.take(at).len() && s.take(at)[k] == c;
            assert(s[k] == c);
        }
    }
}

/// Trimming takes white space off both ends and nothing else, and leaves none
/// there.
pub proof fn law_trimming_takes_white_space_off_the_ends(s: Seq<char>)
    ensures
        exists|head: Seq<char>, tail: Seq<char>|
            s == #[trigger] (head + trimmed(s) + tail) && all_white(head) && all_white(tail),
        trimmed(s).len() > 0 ==> !white(trimmed(s)[0]) && !white(trimmed(s).last()),
        trimmed(s).len() == 0 <==> all_white(s),
{
    let head = lemma_trimmed_start(s);
    let middle = trimmed_start(s);
    let tail = lemma_trimmed_end(middle);
    assert(s =~= head + trimmed(s) + tail);
    if trimmed(s).len() > 0 {
        assert(trimmed(s)[0] == middle[0]);
        let at = head.len() as int;
        assert(s[at] == trimmed(s)[0]);
    } else {
        assert(s =~= head + tail);
        assert forall|i: int| 0 <= i < s.len() implies white(#[trigger] s[i]) by {
            if i < head.len() {
                assert(s[i] == head[i]);
            } else {
                assert(s[i] == tail[i - head.len()]);
            }
        }
    }
}

proof fn lemma_trimmed_start(s: Seq<char>) -> (head: Seq<char>)
    ensures
        s == head + trimmed_start(s),
        all_white(head),
        trimmed_start(s).len() > 0 ==> !white(trimmed_start(s)[0]),
    decreases s.len(),
{
    if s.len() > 0 && white(s[0]) {
        let rest = lemma_trimmed_start(s.drop_first());
        let head = seq![s[0]] + rest;
        assert(s =~= seq![s[0]] + s.drop_first());
        assert(trimmed_start(s) == trimmed_start(s.drop_first()));
        assert(head + trimmed_start(s) =~= seq![s[0]] + (rest + trimmed_start(s)));
        assert forall|i: int| 0 <= i < head.len() implies white(#[trigger] head[i]) by {
            if i > 0 {
                assert(head[i] == rest[i - 1]);
            }
        }
        head
    } else {
        assert(s =~= Seq::<char>::empty() + trimmed_start(s));
        Seq::empty()
    }
}

proof fn lemma_trimmed_end(s: Seq<char>) -> (tail: Seq<char>)
    ensures
        s == trimmed_end(s) + tail,
        all_white(tail),
        trimmed_end(s).len() > 0 ==> !white(trimmed_end(s).last()),
    decreases s.len(),
{
    if s.len() > 0 && white(s.last()) {
        let rest = lemma_trimmed_end(s.drop_last());
        let tail = rest.push(s.last());
        assert(s =~= s.drop_last().push(s.last()));
        assert(trimmed_end(s) == trimmed_end(s.drop_last()));
        assert(trimmed_end(s) + tail =~= (trimmed_end(s) + rest).push(s.last()));
        tail
    } else {
        assert(s =~= trimmed_end(s) + Seq::<char>::empty());
        Seq::empty()
    }
}

/// Joining sets the separator between the parts and nowhere else.
pub proof fn law_separators_stand_between_parts(
    a: Seq<Seq<char>>,
    b: Seq<Seq<char>>,
    part: Seq<char>,
    sep: Seq<char>,
)
    requires
        a.len() > 0,
        b.len() > 0,
    ensures
        joined(Seq::empty(), sep) == Seq::<char>::empty(),
        joined(seq![part], sep) == part,
        joined(a + b, sep) == joined(a, sep) + sep + joined(b, sep),
    decreases b.len(),
{
    assert((a + b).last() == b.last());
    if b.len() == 1 {
        assert((a + b).drop_last() =~= a);
        assert(b[0] == b.last());
    } else {
        law_separators_stand_between_parts(a, b.drop_last(), part, sep);
        assert((a + b).drop_last() =~= a + b.drop_last());
        assert(joined(a + b, sep) =~= joined(a, sep) + sep + joined(b, sep));
    }
}

/// A text writes a number exactly where it is made of digits, at least one;
/// each digit behind it makes the number ten times as large and adds its own
/// value.
pub proof fn law_numbers_are_read_digit_by_digit(s: Seq<char>, c: char)
    ensures
        digits_value(s) is Some <==> s.len() > 0 && forall|i: int|
            0 <= i < s.len() ==> '0' <= #[trigger] s[i] <= '9',
        '0' <= c <= '9' ==> digits_value(seq![c]) == Some(c as int - '0' as int),
        '0' <= c <= '9' ==> (digits_value(s) matches Some(n) ==> digits_value(s.push(c)) == Some(
            10 * n + (c as int - '0' as int),
        )),
    decreases s.len(),
{
    lemma_digit(c);
    assert(seq![c].last() == c);
    assert(s.push(c).drop_last() =~= s);
    if s.len() > 0 {
        lemma_digit(s.last());
        let head = s.drop_last();
        if s.len() > 1 {
            law_numbers_are_read_digit_by_digit(head, c);
            if digits_value(s) is Some {
                assert forall|i: int| 0 <= i < s.len() implies '0' <= #[trigger] s[i] <= '9' by {
                    if i < head.len() {
                        assert(s[i] == head[i]);
                    }
                }
            }
            if forall|i: int| 0 <= i < s.len() ==> '0' <= #[trigger] s[i] <= '9' {
                assert forall|i: int| 0 <= i < head.len() implies '0' <= #[trigger] head[i]
                    <= '9' by {
                    assert(s[i] == head[i]);
                }
                assert('0' <= s[s.len() - 1] <= '9');
            }
        } else {
            assert(s[0] == s.last());
            assert(head =~= Seq::empty());
        }
    }
}

proof fn lemma_digit(c: char)
    ensures
        '0' <= c <= '9' <==> digit_value(c) < 10,
        '0' <= c <= '9' ==> digit_value(c) == c as int - '0' as int,
        digit_value(c) <= 10,
{
}

/// A number is written without needless zeros: a zero stands first only in the
/// number zero.
pub proof fn law_numbers_have_no_leading_zeros(n: int)
    requires
        n >= 0,
    ensures
        decimal(n).len() > 0,
        decimal(n)[0] == '0' <==> n == 0,
    decreases n,
{
    if n >= 10 {
        law_numbers_have_no_leading_zeros(n / 10);
        assert(decimal(n)[0] == decimal(n / 10)[0]);
    }
}

/// A number with a sign: a plus may stand before an unsigned number and a
/// minus before a signed one; a number that is larger than it may be is not
/// read.
pub proof fn law_how_signs_are_read(s: Seq<char>, max: int)
    requires
        s.len() > 0,
        '0' <= s[0] <= '9',
    ensures
        unsigned_value(seq!['+'] + s, max) == unsigned_value(s, max),
        unsigned_value(s, max) == match digits_value(s) {
            Some(n) => if n <= max {
                Some(n)
            } else {
                None
            },
            None => None,
        },
        unsigned_value(seq!['-'] + s, max) is None,
        signed_value(s) == unsigned_value(s, i64::MAX as int),
        digits_value(s) matches Some(n) ==> n <= i64::MAX ==> signed_value(seq!['-'] + s) == Some(
            -n,
        ),
{
    let (plus, minus) = (seq!['+'] + s, seq!['-'] + s);
    assert(plus.drop_first() =~= s);
    assert(minus.drop_first() =~= s);
    assert(plus[0] == '+' && minus[0] == '-');
    law_numbers_are_read_digit_by_digit(minus, '0');
}

} // verus!
