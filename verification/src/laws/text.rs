//! What the text helpers are for.

use vstd::prelude::*;

use crate::text::{decimal, occurs, stands_at, trimmed, trimmed_end, trimmed_start, white};

verus! {

/// A text occurs in another one if and only if the other is some text, then it, then
/// some text.
pub proof fn law_occurrence_is_in_the_middle(text: Seq<char>, needle: Seq<char>)
    ensures
        occurs(text, needle) <==> exists|before: Seq<char>, after: Seq<char>| text == #[trigger] (before + needle + after),
{
    if occurs(text, needle) {
        let at = choose|at: int| stands_at(text, needle, at);
        let before = text.take(at);
        let after = text.skip(at + needle.len());
        assert(text =~= before + needle + after);
    }
    if exists|before: Seq<char>, after: Seq<char>| text == #[trigger] (before + needle + after) {
        let (before, after) = choose|before: Seq<char>, after: Seq<char>| text == #[trigger] (before + needle + after);
        assert(text.subrange(before.len() as int, (before.len() + needle.len()) as int) =~= needle);
        assert(stands_at(text, needle, before.len() as int));
    }
}

/// A text stands at a position of another one if and only if every character of it
/// does.
pub proof fn law_standing_is_character_by_character(text: Seq<char>, needle: Seq<char>, at: int)
    ensures
        stands_at(text, needle, at) <==> 0 <= at <= text.len() - needle.len() && forall|i: int|
            0 <= i < needle.len() ==> #[trigger] needle[i] == text[at + i],
{
    if stands_at(text, needle, at) {
        assert forall|i: int| 0 <= i < needle.len() implies #[trigger] needle[i] == text[at + i] by {
            assert(text.subrange(at, at + needle.len())[i] == needle[i]);
        }
    }
    if 0 <= at <= text.len() - needle.len() && forall|i: int|
        0 <= i < needle.len() ==> #[trigger] needle[i] == text[at + i] {
        assert(text.subrange(at, at + needle.len()) =~= needle);
    }
}

/// What is cut off in front is white space, up to the first character that is none.
proof fn lemma_cut_in_front(text: Seq<char>) -> (n: int)
    ensures
        0 <= n <= text.len(),
        trimmed_start(text) == text.skip(n),
        forall|i: int| 0 <= i < n ==> white(#[trigger] text[i]),
        n < text.len() ==> !white(text[n]),
    decreases text.len(),
{
    if text.len() > 0 && white(text.first()) {
        let n = lemma_cut_in_front(text.skip(1));
        assert(text.skip(1).skip(n) =~= text.skip(n + 1));
        assert forall|i: int| 0 <= i < n + 1 implies white(#[trigger] text[i]) by {
            if i > 0 {
                assert(white(text.skip(1)[i - 1]));
            }
        }
        n + 1
    } else {
        assert(text.skip(0) =~= text);
        0
    }
}

/// What is cut off at the end is white space, up to the last character that is none.
proof fn lemma_cut_at_the_end(text: Seq<char>) -> (n: int)
    ensures
        0 <= n <= text.len(),
        trimmed_end(text) == text.take(n),
        forall|i: int| n <= i < text.len() ==> white(#[trigger] text[i]),
        n > 0 ==> !white(text[n - 1]),
    decreases text.len(),
{
    if text.len() > 0 && white(text.last()) {
        let n = lemma_cut_at_the_end(text.drop_last());
        assert(text.drop_last().take(n) =~= text.take(n));
        assert forall|i: int| n <= i < text.len() implies white(#[trigger] text[i]) by {
            if i < text.len() - 1 {
                assert(white(text.drop_last()[i]));
            }
        }
        n
    } else {
        assert(text.take(text.len() as int) =~= text);
        text.len() as int
    }
}

/// Trimming cuts white space off both ends and nothing else: the text is white space,
/// then what is left, then white space, and what is left neither starts nor ends with
/// any.
pub proof fn law_trimming_cuts_white_space_off_both_ends(text: Seq<char>)
    ensures
        exists|from: int, upto: int|
            #![trigger text.subrange(from, upto)]
            {
                &&& 0 <= from <= upto <= text.len()
                &&& trimmed(text) == text.subrange(from, upto)
                &&& forall|i: int| 0 <= i < from || upto <= i < text.len() ==> white(#[trigger] text[i])
                &&& from < upto ==> !white(text[from]) && !white(text[upto - 1])
            },
{
    let from = lemma_cut_in_front(text);
    let rest = text.skip(from);
    let n = lemma_cut_at_the_end(rest);
    let upto = from + n;
    assert(rest.take(n) =~= text.subrange(from, upto));
    assert forall|i: int| 0 <= i < from || upto <= i < text.len() implies white(#[trigger] text[i]) by {
        if i >= upto {
            assert(white(rest[i - from]));
        }
    }
    if n > 0 {
        assert(!white(rest[n - 1]));
        assert(!white(text[from]));
    }
}

/// The value of a decimal numeral.
pub open spec fn value_of(numeral: Seq<char>) -> int
    decreases numeral.len(),
{
    if numeral.len() == 0 {
        0
    } else {
        value_of(numeral.drop_last()) * 10 + (numeral.last() as int - '0' as int)
    }
}

/// A decimal numeral has the value of its number, is made of digits, and has no
/// leading zero but for the number zero.
pub proof fn law_numeral_has_its_value(n: nat)
    ensures
        value_of(decimal(n)) == n,
        decimal(n).len() > 0,
        forall|i: int| 0 <= i < decimal(n).len() ==> '0' <= #[trigger] decimal(n)[i] <= '9',
        decimal(n)[0] == '0' ==> n == 0,
    decreases n,
{
    reveal_with_fuel(value_of, 3);
    if n < 10 {
        assert(decimal(n).drop_last() =~= Seq::<char>::empty());
    } else {
        let before = decimal(n / 10);
        law_numeral_has_its_value(n / 10);
        assert(decimal(n).drop_last() =~= before);
        assert forall|i: int| 0 <= i < decimal(n).len() implies '0' <= #[trigger] decimal(n)[i] <= '9' by {
            if i < before.len() {
                assert(decimal(n)[i] == before[i]);
            }
        }
        assert(decimal(n)[0] == before[0]);
    }
}

}
