//! What holds of moving a prerelease label on: a label that a semantic
//! version can carry is followed by one that it can carry too.

use crate::semantic_version::{
    bump_outcome, bumped, first_prerelease, is_identifier_char, is_segment, next_prerelease,
    valid_identifier, valid_prerelease, BumpType, SemVerView, VersionError,
};
use crate::semantic_version::lemma_last_index_in_range;
use crate::text::{all_digits, decimal, digit_char, is_digit, last_index_of, parsed_u64};
use vstd::prelude::*;

verus! {

/// `t` can stand as an identifier of a prerelease label: it is not empty,
/// is made of identifier characters, and is no number with a leading zero.
pub open spec fn identifier_text(t: Seq<char>) -> bool {
    &&& t.len() > 0
    &&& forall|i: int| 0 <= i < t.len() ==> is_identifier_char(#[trigger] t[i])
    &&& (t.len() > 1 && t[0] == '0' ==> exists|i: int|
        0 <= i < t.len() && !('0' as int <= (#[trigger] t[i]) as int <= '9' as int))
}

/// Decimal notation is made of digits and, but for zero itself, does not
/// begin with a zero.
pub proof fn lemma_decimal_digits(n: nat)
    ensures
        decimal(n).len() > 0,
        all_digits(decimal(n)),
        n > 0 ==> decimal(n)[0] != '0',
        decimal(n).len() > 1 ==> n >= 10,
    decreases n,
{
    if n < 10 {
        assert(is_digit(digit_char(n)));
        assert(decimal(n)[0] == digit_char(n));
    } else {
        lemma_decimal_digits(n / 10);
        let front = decimal(n / 10);
        let out = decimal(n);
        assert(is_digit(digit_char(n % 10)));
        assert forall|i: int| 0 <= i < out.len() implies is_digit(#[trigger] out[i]) by {
            if i < front.len() {
                assert(out[i] == front[i]);
            }
        }
        assert(out[0] == front[0]);
    }
}

/// The decimal notation of a number can stand as an identifier.
pub proof fn lemma_decimal_is_identifier(n: nat)
    ensures
        identifier_text(decimal(n)),
        forall|i: int| 0 <= i < decimal(n).len() ==> (#[trigger] decimal(n)[i]) != '.',
{
    lemma_decimal_digits(n);
    let t = decimal(n);
    assert forall|i: int| 0 <= i < t.len() implies is_identifier_char(#[trigger] t[i]) && t[i]
        != '.' by {
        assert(is_digit(t[i]));
    }
}

/// A valid label with one more identifier behind a dot is a valid label.
pub proof fn lemma_append_identifier(s: Seq<char>, t: Seq<char>)
    requires
        valid_prerelease(s),
        s.len() > 0,
        identifier_text(t),
        forall|i: int| 0 <= i < t.len() ==> (#[trigger] t[i]) != '.',
    ensures
        valid_prerelease(s + seq!['.'] + t),
{
    let r = s + seq!['.'] + t;
    let cut = s.len() as int;
    assert(r[cut] == '.');
    assert forall|from: int, to: int| #[trigger] is_segment(r, from, to) implies valid_identifier(
        r,
        from,
        to,
    ) by {
        if to <= cut {
            assert forall|i: int| from <= i < to implies #[trigger] s[i] != '.' by {
                assert(r[i] == s[i]);
            }
            if from > 0 {
                assert(r[from - 1] == s[from - 1]);
            }
            if to < cut {
                assert(r[to] == s[to]);
            }
            assert(is_segment(s, from, to));
            assert(valid_identifier(s, from, to));
            assert forall|i: int| from <= i < to implies is_identifier_char(#[trigger] r[i]) by {
                assert(r[i] == s[i]);
                assert(is_identifier_char(s[i]));
            }
            if to - from > 1 && r[from] == '0' {
                assert(s[from] == r[from]);
                let w = choose|w: int|
                    from <= w < to && !('0' as int <= (#[trigger] s[w]) as int <= '9' as int);
                assert(r[w] == s[w]);
            }
        } else {
            if from <= cut {
                assert(r[cut] != '.');
            }
            if from > cut + 1 {
                assert(r[from - 1] == t[from - 1 - cut - 1]);
            }
            assert(from == cut + 1);
            if to < r.len() {
                assert(r[to] == t[to - cut - 1]);
            }
            assert(to == r.len());
            assert forall|i: int| from <= i < to implies is_identifier_char(#[trigger] r[i]) by {
                assert(r[i] == t[i - cut - 1]);
            }
            if to - from > 1 && r[from] == '0' {
                assert(r[from] == t[0]);
                let w = choose|w: int|
                    0 <= w < t.len() && !('0' as int <= (#[trigger] t[w]) as int <= '9' as int);
                assert(r[cut + 1 + w] == t[w]);
            }
        }
    }
}

/// What stands before a dot of a valid label is a valid label, and is not
/// empty.
pub proof fn lemma_before_dot(s: Seq<char>, dot: int)
    requires
        valid_prerelease(s),
        0 <= dot < s.len(),
        s[dot] == '.',
        forall|i: int| dot < i < s.len() ==> (#[trigger] s[i]) != '.',
    ensures
        valid_prerelease(s.take(dot)),
        s.take(dot).len() > 0,
        dot + 1 < s.len(),
        forall|i: int| dot < i < s.len() ==> is_identifier_char(#[trigger] s[i]),
{
    let p = s.take(dot);
    assert(is_segment(s, dot + 1, s.len() as int));
    assert(valid_identifier(s, dot + 1, s.len() as int));
    assert forall|from: int, to: int| #[trigger] is_segment(p, from, to) implies valid_identifier(
        p,
        from,
        to,
    ) by {
        assert forall|i: int| from <= i < to implies #[trigger] s[i] != '.' by {
            assert(p[i] == s[i]);
        }
        if from > 0 {
            assert(p[from - 1] == s[from - 1]);
        }
        if to < dot {
            assert(p[to] == s[to]);
        }
        assert(is_segment(s, from, to));
        assert(valid_identifier(s, from, to));
        assert forall|i: int| from <= i < to implies is_identifier_char(#[trigger] p[i]) by {
            assert(p[i] == s[i]);
            assert(is_identifier_char(s[i]));
        }
        if to - from > 1 && p[from] == '0' {
            assert(s[from] == p[from]);
            let w = choose|w: int|
                from <= w < to && !('0' as int <= (#[trigger] s[w]) as int <= '9' as int);
            assert(p[w] == s[w]);
        }
    }
    if dot == 0 {
        assert(is_segment(s, 0, 0));
        assert(valid_identifier(s, 0, 0));
    }
}

/// The label `alpha` is a valid label.
proof fn lemma_alpha_valid()
    ensures
        valid_prerelease(seq!['a', 'l', 'p', 'h', 'a']),
{
    let s = seq!['a', 'l', 'p', 'h', 'a'];
    assert forall|from: int, to: int| #[trigger] is_segment(s, from, to) implies valid_identifier(
        s,
        from,
        to,
    ) by {
        if from > 0 {
            assert(s[from - 1] != '.');
        }
        if to < s.len() {
            assert(s[to] != '.');
        }
        assert(from == 0 && to == 5);
        assert forall|i: int| 0 <= i < 5 implies is_identifier_char(#[trigger] s[i]) by {
        }
    }
}

/// The label that follows a valid label is valid.
///
/// Whatever branch the increment takes, the label that it makes is one that
/// a semantic version can carry: the first label `alpha.1`, the label with
/// its number incremented, or the label with `.1` behind it.
pub proof fn lemma_next_prerelease_valid(pre: Seq<char>)
    requires
        valid_prerelease(pre),
    ensures
        next_prerelease(pre) matches Some(next) ==> valid_prerelease(next),
{
    let one = seq!['1'];
    assert(identifier_text(one)) by {
        assert(is_identifier_char(one[0]));
    }
    if pre.len() == 0 {
        lemma_alpha_valid();
        lemma_append_identifier(seq!['a', 'l', 'p', 'h', 'a'], one);
        assert(seq!['a', 'l', 'p', 'h', 'a'] + seq!['.'] + one =~= first_prerelease());
    } else {
        lemma_last_index_in_range(pre, '.');
        lemma_append_identifier(pre, one);
        assert(pre + seq!['.'] + one =~= pre + seq!['.', '1']);
        match last_index_of(pre, '.') {
            Some(dot) => {
                match parsed_u64(pre.skip(dot + 1)) {
                    Some(n) => {
                        if n < u64::MAX {
                            assert forall|i: int| dot < i < pre.len() implies (#[trigger] pre[i])
                                != '.' by {
                                lemma_no_later_dot(pre, '.', i);
                            }
                            lemma_before_dot(pre, dot);
                            lemma_decimal_is_identifier((n + 1) as nat);
                            lemma_append_identifier(pre.take(dot), decimal((n + 1) as nat));
                        }
                    },
                    None => {},
                }
            },
            None => {},
        }
    }
}

/// Nothing behind the last occurrence of a character is that character.
pub proof fn lemma_no_later_dot(s: Seq<char>, c: char, i: int)
    requires
        last_index_of(s, c) matches Some(at) && at < i < s.len(),
    ensures
        s[i] != c,
    decreases s.len(),
{
    lemma_last_index_in_range(s, c);
    if s.len() > 0 && s.last() != c {
        if i < s.len() - 1 {
            lemma_no_later_dot(s.drop_last(), c, i);
            assert(s.drop_last()[i] == s[i]);
        }
    }
}

/// A prerelease bump of a version with a valid label fails only where the
/// number of the label has no successor: the new label is never rejected.
pub proof fn lemma_prerelease_bump_accepted(v: SemVerView)
    requires
        valid_prerelease(v.pre),
    ensures
        bump_outcome(v, BumpType::Prerelease) is Ok || bump_outcome(v, BumpType::Prerelease) == Err::<
            SemVerView,
            VersionError,
        >(VersionError::Overflow),
        bump_outcome(v, BumpType::Prerelease) matches Ok(next) ==> valid_prerelease(next.pre)
            && next.major == v.major && next.minor == v.minor && next.patch == v.patch
            && next.build == v.build,
{
    lemma_next_prerelease_valid(v.pre);
    assert(bumped(v, BumpType::Prerelease) is Some <==> next_prerelease(v.pre) is Some);
}

} // verus!
