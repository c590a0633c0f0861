//! Small text utilities the level loader and the configuration
//! reader share: trimming whitespace and splitting into lines.

use vstd::prelude::*;
use vstd::string::StrSliceExecFns;
use vstd::string::StringExecFns;

verus! {

/// The views of a vector of lines.
pub open spec fn lines_of(v: Seq<String>) -> Seq<Seq<char>> {
    Seq::new(v.len(), |i: int| v[i]@)
}

/// The whitespace characters trimming removes: space, tab, carriage
/// return and newline.
pub open spec fn is_trim_space(c: char) -> bool {
    c == ' ' || c == '\t' || c == '\r' || c == '\n'
}

/// The sequence with its leading whitespace removed.
pub open spec fn trim_front(s: Seq<char>) -> Seq<char>
    decreases s.len(),
{
    if s.len() > 0 && is_trim_space(s[0]) {
        trim_front(s.drop_first())
    } else {
        s
    }
}

/// The sequence with its trailing whitespace removed.
pub open spec fn trim_back(s: Seq<char>) -> Seq<char>
    decreases s.len(),
{
    if s.len() > 0 && is_trim_space(s.last()) {
        trim_back(s.drop_last())
    } else {
        s
    }
}

/// The sequence with whitespace removed from both ends.
pub open spec fn spec_trim(s: Seq<char>) -> Seq<char> {
    trim_back(trim_front(s))
}

/// The index of the first occurrence of a character, or the length
/// when it does not occur.
pub open spec fn first_index_of(s: Seq<char>, ch: char) -> int
    decreases s.len(),
{
    if s.len() == 0 {
        0
    } else if s[0] == ch {
        0
    } else {
        1 + first_index_of(s.drop_first(), ch)
    }
}

/// `first_index_of` lies between zero and the length, points at the
/// character when it occurs, and nothing before it is the character.
pub proof fn lemma_first_index_of(s: Seq<char>, ch: char)
    ensures
        0 <= first_index_of(s, ch) <= s.len(),
        first_index_of(s, ch) < s.len() ==> s[first_index_of(s, ch)] == ch,
        forall|j: int| 0 <= j < first_index_of(s, ch) ==> s[j] != ch,
    decreases s.len(),
{
    if s.len() == 0 {
    } else if s[0] == ch {
    } else {
        lemma_first_index_of(s.drop_first(), ch);
        assert forall|j: int| 1 <= j < s.len() implies #[trigger] s[j] == s.drop_first()[j - 1] by {}
    }
}

/// A scan that found the first occurrence at `k` — or none up to the
/// length — computed `first_index_of`.
pub proof fn lemma_first_index_of_is(s: Seq<char>, ch: char, k: int)
    requires
        0 <= k <= s.len(),
        forall|j: int| 0 <= j < k ==> s[j] != ch,
        k < s.len() ==> s[k] == ch,
    ensures
        first_index_of(s, ch) == k,
    decreases s.len(),
{
    if s.len() == 0 {
    } else if s[0] == ch {
        assert(k == 0);
    } else {
        assert(k >= 1);
        assert forall|j: int| 1 <= j < s.len() implies #[trigger] s[j] == s.drop_first()[j - 1] by {}
        lemma_first_index_of_is(s.drop_first(), ch, k - 1);
    }
}

/// The lines of a text: the pieces between newline characters, with a
/// piece before the first, between any two, and after the last.
pub open spec fn spec_split_lines(s: Seq<char>) -> Seq<Seq<char>>
    decreases s.len()
        via spec_split_lines_dec
{
    let i = first_index_of(s, '\n');
    if i >= s.len() {
        seq![s]
    } else {
        seq![s.take(i)] + spec_split_lines(s.skip(i + 1))
    }
}

#[via_fn]
proof fn spec_split_lines_dec(s: Seq<char>) {
    lemma_first_index_of(s, '\n');
}

fn is_space_char(c: char) -> (r: bool)
    ensures
        r == is_trim_space(c),
{
    c == ' ' || c == '\t' || c == '\r' || c == '\n'
}

/// The string with whitespace removed from both ends.
pub fn trim_spaces<'a>(s: &'a str) -> (r: &'a str)
    ensures
        r@ == spec_trim(s@),
{
    let n = s.unicode_len();
    let mut start: usize = 0;
    proof {
        assert(s@.skip(0) =~= s@);
    }
    while start < n && is_space_char(s.get_char(start))
        invariant
            n == s@.len(),
            0 <= start <= n,
            trim_front(s@) == trim_front(s@.skip(start as int)),
        decreases n - start,
    {
        proof {
            assert(s@.skip(start as int).drop_first() =~= s@.skip(start as int + 1));
        }
        start = start + 1;
    }
    proof {
        if start < n {
            assert(!is_trim_space(s@.skip(start as int)[0]));
        }
        assert(trim_front(s@) =~= s@.skip(start as int));
        assert(s@.subrange(start as int, n as int) =~= s@.skip(start as int));
    }
    let mut end: usize = n;
    while end > start && is_space_char(s.get_char(end - 1))
        invariant
            n == s@.len(),
            start <= end <= n,
            trim_front(s@) == s@.skip(start as int),
            trim_back(trim_front(s@)) == trim_back(s@.subrange(start as int, end as int)),
        decreases end,
    {
        proof {
            assert(s@.subrange(start as int, end as int).last() == s@[end - 1]);
            assert(s@.subrange(start as int, end as int).drop_last() =~= s@.subrange(
                start as int,
                end as int - 1,
            ));
        }
        end = end - 1;
    }
    proof {
        if end > start {
            assert(!is_trim_space(s@.subrange(start as int, end as int).last()));
        }
        assert(spec_trim(s@) =~= s@.subrange(start as int, end as int));
    }
    s.substring_char(start, end)
}

/// The index of the first occurrence of a character, or the string's
/// length when it does not occur.
pub fn find_char(s: &str, ch: char) -> (r: usize)
    ensures
        r as int == first_index_of(s@, ch),
        r <= s@.len(),
{
    let n = s.unicode_len();
    let mut i: usize = 0;
    while i < n
        invariant
            n == s@.len(),
            0 <= i <= n,
            forall|j: int| 0 <= j < i ==> s@[j] != ch,
        decreases n - i,
    {
        if s.get_char(i) == ch {
            proof {
                lemma_first_index_of_is(s@, ch, i as int);
            }
            return i;
        }
        i = i + 1;
    }
    proof {
        lemma_first_index_of_is(s@, ch, n as int);
    }
    n
}

/// The text split at newline characters.
pub fn split_lines(s: &str) -> (r: Vec<String>)
    ensures
        lines_of(r@) == spec_split_lines(s@),
{
    let n = s.unicode_len();
    let mut result: Vec<String> = Vec::new();
    let mut start: usize = 0;
    let mut i: usize = 0;
    proof {
        assert(s@.skip(0) =~= s@);
        assert(lines_of(result@) =~= Seq::<Seq<char>>::empty());
        assert(Seq::<Seq<char>>::empty() + spec_split_lines(s@) =~= spec_split_lines(s@));
    }
    while i < n
        invariant
            n == s@.len(),
            0 <= start <= i <= n,
            forall|j: int| start <= j < i ==> s@[j] != '\n',
            spec_split_lines(s@) == lines_of(result@) + spec_split_lines(s@.skip(start as int)),
        decreases n - i,
    {
        if s.get_char(i) == '\n' {
            let piece = s.substring_char(start, i);
            let ghost pre = result@;
            result.push(String::from_str(piece));
            proof {
                let tail = s@.skip(start as int);
                assert forall|j: int| 0 <= j < tail.len() implies #[trigger] tail[j] == s@[start
                    + j] by {}
                lemma_first_index_of_is(tail, '\n', i - start);
                assert(tail.take(i - start) =~= s@.subrange(start as int, i as int));
                assert(tail.skip(i - start + 1) =~= s@.skip(i as int + 1));
                assert(lines_of(result@) =~= lines_of(pre).push(s@.subrange(
                    start as int,
                    i as int,
                )));
                assert(lines_of(pre) + (seq![s@.subrange(start as int, i as int)]
                    + spec_split_lines(s@.skip(i as int + 1))) =~= lines_of(result@)
                    + spec_split_lines(s@.skip(i as int + 1)));
            }
            start = i + 1;
        }
        i = i + 1;
    }
    let piece = s.substring_char(start, n);
    let ghost pre = result@;
    result.push(String::from_str(piece));
    proof {
        let tail = s@.skip(start as int);
        assert forall|j: int| 0 <= j < tail.len() implies #[trigger] tail[j] == s@[start + j] by {}
        lemma_first_index_of_is(tail, '\n', n - start);
        assert(tail =~= s@.subrange(start as int, n as int));
        assert(spec_split_lines(tail) =~= seq![s@.subrange(start as int, n as int)]);
        assert(lines_of(result@) =~= lines_of(pre).push(s@.subrange(start as int, n as int)));
        assert(lines_of(pre) + seq![s@.subrange(start as int, n as int)] =~= lines_of(result@));
    }
    result
}

} // verus!
