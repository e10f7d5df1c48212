//! Small verified helpers over strings and decimal numerals.

use vstd::prelude::*;
use vstd::string::*;

verus! {

/// The character for a single decimal digit value.
pub open spec fn dec_digit(d: int) -> char {
    if d == 0 {
        '0'
    } else if d == 1 {
        '1'
    } else if d == 2 {
        '2'
    } else if d == 3 {
        '3'
    } else if d == 4 {
        '4'
    } else if d == 5 {
        '5'
    } else if d == 6 {
        '6'
    } else if d == 7 {
        '7'
    } else if d == 8 {
        '8'
    } else {
        '9'
    }
}

/// Decimal rendering of a natural number, most significant digit first.
pub open spec fn dec_str_of(n: nat) -> Seq<char>
    decreases n,
{
    if n < 10 {
        seq![dec_digit(n as int)]
    } else {
        dec_str_of(n / 10).push(dec_digit((n % 10) as int))
    }
}

/// Render an unsigned number as its decimal numeral.
pub fn u64_to_dec(n: u64) -> (r: String)
    ensures
        r@ == dec_str_of(n as nat),
    decreases n,
{
    let digit: &str = match n % 10 {
        0 => "0",
        1 => "1",
        2 => "2",
        3 => "3",
        4 => "4",
        5 => "5",
        6 => "6",
        7 => "7",
        8 => "8",
        _ => "9",
    };
    proof {
        reveal_strlit("0");
        reveal_strlit("1");
        reveal_strlit("2");
        reveal_strlit("3");
        reveal_strlit("4");
        reveal_strlit("5");
        reveal_strlit("6");
        reveal_strlit("7");
        reveal_strlit("8");
        reveal_strlit("9");
        assert(digit@ =~= seq![dec_digit((n % 10) as int)]);
    }
    if n < 10 {
        let r = digit.to_owned();
        proof {
            assert(r@ =~= dec_str_of(n as nat));
        }
        r
    } else {
        let mut r = u64_to_dec(n / 10);
        r.append(digit);
        proof {
            assert(r@ =~= dec_str_of(n as nat));
        }
        r
    }
}

/// Whether the characters of `s` are equal to those of `b`.
pub fn str_equal(a: &str, b: &str) -> (r: bool)
    ensures
        r == (a@ == b@),
{
    let sa: String = a.to_owned();
    let sb: String = b.to_owned();
    sa.eq(&sb)
}

/// Position of the first occurrence of a character, if any.
pub open spec fn first_index_of(s: Seq<char>, c: char) -> Option<int>
    decreases s.len(),
{
    if s.len() == 0 {
        None
    } else if s[0] == c {
        Some(0int)
    } else {
        match first_index_of(s.skip(1), c) {
            Some(i) => Some(i + 1),
            None => None,
        }
    }
}

/// What `first_index_of` returns: the least position carrying the character.
pub proof fn lemma_first_index_of(s: Seq<char>, c: char)
    ensures
        match first_index_of(s, c) {
            Some(i) => 0 <= i < s.len() && s[i] == c && forall|j: int| 0 <= j < i ==> s[j] != c,
            None => forall|j: int| 0 <= j < s.len() ==> s[j] != c,
        },
    decreases s.len(),
{
    if s.len() > 0 && s[0] != c {
        lemma_first_index_of(s.skip(1), c);
        if first_index_of(s.skip(1), c) is Some {
            let i = first_index_of(s.skip(1), c)->Some_0;
            assert(s.skip(1)[i] == s[i + 1]);
            assert forall|j: int| 0 <= j < i + 1 implies s[j] != c by {
                if j >= 1 {
                    assert(s.skip(1)[j - 1] != c);
                    assert(s.skip(1)[j - 1] == s[j]);
                }
            }
        } else {
            assert forall|j: int| 0 <= j < s.len() implies s[j] != c by {
                if j >= 1 {
                    assert(s.skip(1)[j - 1] != c);
                    assert(s.skip(1)[j - 1] == s[j]);
                }
            }
        }
    }
}

/// Position of the last occurrence of a character, if any.
pub open spec fn last_index_of(s: Seq<char>, c: char) -> Option<int>
    decreases s.len(),
{
    if s.len() == 0 {
        None
    } else if s[s.len() - 1] == c {
        Some(s.len() - 1)
    } else {
        last_index_of(s.drop_last(), c)
    }
}

/// What `last_index_of` returns: the greatest position carrying the character.
pub proof fn lemma_last_index_of(s: Seq<char>, c: char)
    ensures
        match last_index_of(s, c) {
            Some(i) => 0 <= i < s.len() && s[i] == c && forall|j: int| i < j < s.len() ==> s[j]
                != c,
            None => forall|j: int| 0 <= j < s.len() ==> s[j] != c,
        },
    decreases s.len(),
{
    if s.len() > 0 && s[s.len() - 1] != c {
        lemma_last_index_of(s.drop_last(), c);
        assert(forall|j: int| 0 <= j < s.drop_last().len() ==> s.drop_last()[j] == s[j]);
    }
}

/// Find the first occurrence of a character.
pub fn str_find_char(s: &str, c: char) -> (r: Option<usize>)
    ensures
        match r {
            Some(i) => first_index_of(s@, c) == Some(i as int),
            None => first_index_of(s@, c) is None,
        },
{
    proof {
        lemma_first_index_of(s@, c);
    }
    let n = s.unicode_len();
    let mut i: usize = 0;
    while i < n
        invariant
            0 <= i <= n,
            n == s@.len(),
            forall|j: int| 0 <= j < i ==> s@[j] != c,
            match first_index_of(s@, c) {
                Some(k) => 0 <= k < s@.len() && s@[k] == c && forall|j: int|
                    0 <= j < k ==> s@[j] != c,
                None => forall|j: int| 0 <= j < s@.len() ==> s@[j] != c,
            },
        decreases n - i,
    {
        if s.get_char(i) == c {
            return Some(i);
        }
        i += 1;
    }
    None
}

/// Find the last occurrence of a character.
pub fn str_rfind_char(s: &str, c: char) -> (r: Option<usize>)
    ensures
        match r {
            Some(i) => last_index_of(s@, c) == Some(i as int),
            None => last_index_of(s@, c) is None,
        },
{
    proof {
        lemma_last_index_of(s@, c);
    }
    let n = s.unicode_len();
    let mut i: usize = n;
    while i > 0
        invariant
            0 <= i <= n,
            n == s@.len(),
            forall|j: int| i <= j < n ==> s@[j] != c,
            match last_index_of(s@, c) {
                Some(k) => 0 <= k < s@.len() && s@[k] == c && forall|j: int|
                    k < j < s@.len() ==> s@[j] != c,
                None => forall|j: int| 0 <= j < s@.len() ==> s@[j] != c,
            },
        decreases i,
    {
        i -= 1;
        if s.get_char(i) == c {
            return Some(i);
        }
    }
    None
}

/// Position of the first occurrence of `p` inside `s`, if any.
pub open spec fn first_match_index(s: Seq<char>, p: Seq<char>) -> Option<int>
    decreases s.len(),
{
    if p.len() > s.len() {
        None
    } else if s.subrange(0, p.len() as int) == p {
        Some(0int)
    } else if s.len() == 0 {
        None
    } else {
        match first_match_index(s.skip(1), p) {
            Some(i) => Some(i + 1),
            None => None,
        }
    }
}

/// Whether `p` occurs in `s` at position `i`.
pub open spec fn is_match_at(s: Seq<char>, p: Seq<char>, i: int) -> bool {
    0 <= i && i + p.len() <= s.len() && s.subrange(i, i + p.len() as int) == p
}

/// What `first_match_index` returns: the least match position.
pub proof fn lemma_first_match_index(s: Seq<char>, p: Seq<char>)
    ensures
        match first_match_index(s, p) {
            Some(i) => is_match_at(s, p, i) && forall|j: int| 0 <= j < i ==> !is_match_at(s, p, j),
            None => forall|j: int| 0 <= j <= s.len() ==> !is_match_at(s, p, j),
        },
    decreases s.len(),
{
    if p.len() > s.len() {
        assert(forall|j: int| 0 <= j <= s.len() ==> !is_match_at(s, p, j));
    } else if s.subrange(0, p.len() as int) == p {
        assert(is_match_at(s, p, 0));
    } else if s.len() == 0 {
        assert(!is_match_at(s, p, 0));
    } else {
        lemma_first_match_index(s.skip(1), p);
        assert forall|j: int| 1 <= j <= s.len() implies (is_match_at(s, p, j) <==> is_match_at(
            s.skip(1),
            p,
            j - 1,
        )) by {
            if j + p.len() <= s.len() {
                assert(s.skip(1).subrange(j - 1, j - 1 + p.len() as int) =~= s.subrange(
                    j,
                    j + p.len() as int,
                ));
            }
        }
        assert(!is_match_at(s, p, 0));
        if first_match_index(s.skip(1), p) is Some {
            let i = first_match_index(s.skip(1), p)->Some_0;
            assert(is_match_at(s.skip(1), p, i));
            assert(is_match_at(s, p, i + 1));
            assert forall|j: int| 0 <= j < i + 1 implies !is_match_at(s, p, j) by {
                if j >= 1 {
                    assert(!is_match_at(s.skip(1), p, j - 1));
                }
            }
        } else {
            assert forall|j: int| 0 <= j <= s.len() implies !is_match_at(s, p, j) by {
                if j >= 1 {
                    assert(!is_match_at(s.skip(1), p, j - 1));
                }
            }
        }
    }
}

/// Find the first occurrence of `p` inside `s`.
pub fn str_find_sub(s: &str, p: &str) -> (r: Option<usize>)
    ensures
        match r {
            Some(i) => first_match_index(s@, p@) == Some(i as int),
            None => first_match_index(s@, p@) is None,
        },
{
    proof {
        lemma_first_match_index(s@, p@);
    }
    let n = s.unicode_len();
    let m = p.unicode_len();
    if m > n {
        return None;
    }
    if m == 0 {
        proof {
            assert(s@.subrange(0, 0) =~= p@);
        }
        return Some(0);
    }
    let mut i: usize = 0;
    while i <= n - m
        invariant
            0 <= i,
            i <= n - m + 1,
            1 <= m <= n,
            n == s@.len(),
            m == p@.len(),
            forall|j: int| 0 <= j < i ==> !is_match_at(s@, p@, j),
            match first_match_index(s@, p@) {
                Some(k) => is_match_at(s@, p@, k) && forall|j: int|
                    0 <= j < k ==> !is_match_at(s@, p@, j),
                None => forall|j: int| 0 <= j <= s@.len() ==> !is_match_at(s@, p@, j),
            },
        decreases n - i,
    {
        let window = s.substring_char(i, i + m);
        if str_equal(window, p) {
            proof {
                assert(is_match_at(s@, p@, i as int));
            }
            return Some(i);
        }
        proof {
            assert(!is_match_at(s@, p@, i as int));
        }
        i += 1;
    }
    proof {
        assert forall|j: int| 0 <= j <= s@.len() implies !is_match_at(s@, p@, j) by {
            if j + p@.len() <= s@.len() {
                assert(j < i);
            }
        }
    }
    None
}

/// A string without its trailing zero characters.
pub open spec fn strip_trailing_zeros(s: Seq<char>) -> Seq<char>
    decreases s.len(),
{
    if s.len() > 0 && s.last() == '0' {
        strip_trailing_zeros(s.drop_last())
    } else {
        s
    }
}

/// What `strip_trailing_zeros` returns: the prefix before the trailing run
/// of zeros.
pub proof fn lemma_strip_trailing_zeros(s: Seq<char>)
    ensures
        ({
            let t = strip_trailing_zeros(s);
            &&& t.len() <= s.len()
            &&& t == s.take(t.len() as int)
            &&& forall|j: int| t.len() <= j < s.len() ==> s[j] == '0'
            &&& (t.len() == 0 || t.last() != '0')
        }),
    decreases s.len(),
{
    let t = strip_trailing_zeros(s);
    if s.len() > 0 && s.last() == '0' {
        lemma_strip_trailing_zeros(s.drop_last());
        assert(s.drop_last().take(t.len() as int) =~= s.take(t.len() as int));
        assert forall|j: int| t.len() <= j < s.len() implies s[j] == '0' by {
            if j < s.len() - 1 {
                assert(s.drop_last()[j] == '0');
            }
        }
    } else {
        assert(s.take(s.len() as int) =~= s);
    }
}

/// Whether `p` is a prefix of `s`.
pub open spec fn has_prefix(s: Seq<char>, p: Seq<char>) -> bool {
    p.len() <= s.len() && s.subrange(0, p.len() as int) == p
}

/// Prefix test over the characters of two strings.
pub fn str_has_prefix(s: &str, p: &str) -> (r: bool)
    ensures
        r == has_prefix(s@, p@),
{
    let s_len = s.unicode_len();
    let p_len = p.unicode_len();
    if p_len > s_len {
        assert(!has_prefix(s@, p@));
        return false;
    }
    let mut i: usize = 0;
    while i < p_len
        invariant
            0 <= i <= p_len <= s_len,
            s_len == s@.len(),
            p_len == p@.len(),
            forall|j: int| 0 <= j < i ==> s@[j] == p@[j],
        decreases p_len - i,
    {
        if s.get_char(i) != p.get_char(i) {
            assert(s@.subrange(0, p@.len() as int)[i as int] != p@[i as int]);
            return false;
        }
        i += 1;
    }
    proof {
        assert(s@.subrange(0, p@.len() as int) =~= p@);
    }
    true
}

} // verus!
