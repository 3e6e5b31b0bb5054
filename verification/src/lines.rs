//! Splitting a text into lines.

use vstd::prelude::*;

verus! {

/// Index of the first newline character in `s`, or `s.len()` if there is none.
pub open spec fn first_newline(s: Seq<char>) -> int
    decreases s.len(),
{
    if s.len() == 0 {
        0
    } else if s[0] == '\n' {
        0
    } else {
        1 + first_newline(s.skip(1))
    }
}

proof fn lemma_first_newline(s: Seq<char>)
    ensures
        0 <= first_newline(s) <= s.len(),
        forall|j: int| 0 <= j < first_newline(s) ==> s[j] != '\n',
        first_newline(s) < s.len() ==> s[first_newline(s)] == '\n',
    decreases s.len(),
{
    if s.len() == 0 {
    } else if s[0] == '\n' {
    } else {
        lemma_first_newline(s.skip(1));
        assert(forall|j: int| 0 <= j < first_newline(s.skip(1)) ==> s.skip(1)[j] != '\n');
        assert forall|j: int| 0 <= j < first_newline(s) implies s[j] != '\n' by {
            if j > 0 {
                assert(s.skip(1)[j - 1] == s[j]);
            }
        }
        if first_newline(s) < s.len() {
            assert(s.skip(1)[first_newline(s.skip(1))] == s[first_newline(s)]);
        }
    }
}

/// `first_newline(s)` is the only position that is preceded by no newline and
/// either carries one or ends the sequence.
proof fn lemma_first_newline_is(s: Seq<char>, k: int)
    requires
        0 <= k <= s.len(),
        forall|j: int| 0 <= j < k ==> s[j] != '\n',
        k < s.len() ==> s[k] == '\n',
    ensures
        first_newline(s) == k,
    decreases s.len(),
{
    if s.len() == 0 {
    } else if s[0] == '\n' {
        assert(k == 0);
    } else {
        assert(forall|j: int| 0 <= j < k - 1 ==> s.skip(1)[j] == s[j + 1]);
        if k < s.len() {
            assert(s.skip(1)[k - 1] == s[k]);
        }
        lemma_first_newline_is(s.skip(1), k - 1);
    }
}

/// The lines of `s`, split at `'\n'`. A trailing newline closes the last line
/// and produces no extra empty line after it.
pub open spec fn lines_of(s: Seq<char>) -> Seq<Seq<char>>
    decreases s.len(),
    via lines_of_decreases
{
    if s.len() == 0 {
        Seq::empty()
    } else if first_newline(s) == s.len() {
        seq![s]
    } else {
        seq![s.take(first_newline(s))] + lines_of(s.skip(first_newline(s) + 1))
    }
}

#[via_fn]
proof fn lines_of_decreases(s: Seq<char>) {
    lemma_first_newline(s);
}

/// Splits `contents` into its lines, as references into `contents`.
pub fn split_lines<'a>(contents: &'a str) -> (r: Vec<&'a str>)
    ensures
        r.deep_view() == lines_of(contents@),
{
    let n = contents.unicode_len();
    let mut result: Vec<&'a str> = Vec::new();
    let mut start: usize = 0;
    let mut i: usize = 0;
    proof {
        assert(contents@.skip(0) =~= contents@);
        assert(result.deep_view() =~= Seq::<Seq<char>>::empty());
        assert(result.deep_view() + lines_of(contents@) =~= lines_of(contents@));
    }
    while i < n
        invariant
            n == contents@.len(),
            start <= i <= n,
            forall|j: int| start <= j < i ==> contents@[j] != '\n',
            lines_of(contents@) == result.deep_view() + lines_of(contents@.skip(start as int)),
        decreases n - i,
    {
        if contents.get_char(i) == '\n' {
            let line = contents.substring_char(start, i);
            let ghost prefix = result.deep_view();
            proof {
                let tail = contents@.skip(start as int);
                assert(forall|j: int| 0 <= j < i - start ==> tail[j] == contents@[start + j]);
                lemma_first_newline_is(tail, i - start);
                assert(tail.take(i - start) =~= contents@.subrange(start as int, i as int));
                assert(tail.skip(i - start + 1) =~= contents@.skip(i + 1));
                assert(lines_of(tail) == seq![line@] + lines_of(contents@.skip(i + 1)));
                assert(prefix + (seq![line@] + lines_of(contents@.skip(i + 1)))
                    =~= (prefix + seq![line@]) + lines_of(contents@.skip(i + 1)));
            }
            result.push(line);
            proof {
                assert(result.deep_view() =~= prefix + seq![line@]);
            }
            start = i + 1;
        }
        i = i + 1;
    }
    if start < n {
        let line = contents.substring_char(start, n);
        let ghost prefix = result.deep_view();
        proof {
            let tail = contents@.skip(start as int);
            assert(forall|j: int| 0 <= j < n - start ==> tail[j] == contents@[start + j]);
            lemma_first_newline_is(tail, n - start);
            assert(tail =~= contents@.subrange(start as int, n as int));
            assert(lines_of(tail) == seq![line@]);
        }
        result.push(line);
        proof {
            assert(result.deep_view() =~= prefix + seq![line@]);
        }
    } else {
        proof {
            assert(contents@.skip(start as int).len() == 0);
            assert(lines_of(contents@) =~= result.deep_view());
        }
    }
    result
}

} // verus!
