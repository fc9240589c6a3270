//! Line-level text handling for list files: splitting a byte stream into
//! lines, trimming whitespace, and selecting the lines that name paths.

use vstd::prelude::*;

verus! {

/// ASCII whitespace: the whitespace characters a one-byte encoding can hold.
pub open spec fn is_space(b: u8) -> bool {
    b == 9 || b == 10 || b == 11 || b == 12 || b == 13 || b == 32
}

fn byte_is_space(b: u8) -> (r: bool)
    ensures
        r == is_space(b),
{
    b == 9 || b == 10 || b == 11 || b == 12 || b == 13 || b == 32
}

/// A line with its leading and trailing whitespace removed.
pub open spec fn spec_trim(s: Seq<u8>) -> Seq<u8>
    decreases s.len(),
{
    if s.len() == 0 {
        s
    } else if is_space(s[0]) {
        spec_trim(s.drop_first())
    } else if is_space(s.last()) {
        spec_trim(s.drop_last())
    } else {
        s
    }
}

proof fn lemma_trim_is_subrange(s: Seq<u8>, i: int, j: int)
    requires
        0 <= i <= j <= s.len(),
        forall|k: int| 0 <= k < i ==> is_space(s[k]),
        forall|k: int| j <= k < s.len() ==> is_space(s[k]),
        i < j ==> !is_space(s[i]) && !is_space(s[j - 1]),
    ensures
        spec_trim(s) == s.subrange(i, j),
    decreases s.len(),
{
    if s.len() == 0 {
        assert(s.subrange(i, j) =~= s);
    } else if is_space(s[0]) {
        if i == 0 {
            // i < j would put a non-space at position 0
            assert(j == 0);
            lemma_trim_is_subrange(s.drop_first(), 0, 0);
            assert(s.subrange(0, 0) =~= s.drop_first().subrange(0, 0));
        } else {
            lemma_trim_is_subrange(s.drop_first(), i - 1, j - 1);
            assert(s.drop_first().subrange(i - 1, j - 1) =~= s.subrange(i, j));
        }
    } else if is_space(s.last()) {
        // the first byte is no space, so i == 0; the last is one, so j < s.len()
        assert(i == 0);
        assert(j < s.len());
        lemma_trim_is_subrange(s.drop_last(), i, j);
        assert(s.drop_last().subrange(i, j) =~= s.subrange(i, j));
    } else {
        assert(i == 0);
        assert(j == s.len());
        assert(s.subrange(0, s.len() as int) =~= s);
    }
}

/// Copy of `line` without its leading and trailing whitespace.
pub fn trim(line: &Vec<u8>) -> (r: Vec<u8>)
    ensures
        r@ == spec_trim(line@),
{
    let mut i: usize = 0;
    let mut j: usize = line.len();
    while i < j && byte_is_space(line[i])
        invariant
            0 <= i <= j <= line@.len(),
            forall|k: int| 0 <= k < i ==> is_space(line@[k]),
            j == line@.len(),
        decreases j - i,
    {
        i = i + 1;
    }
    while i < j && byte_is_space(line[j - 1])
        invariant
            0 <= i <= j <= line@.len(),
            forall|k: int| 0 <= k < i ==> is_space(line@[k]),
            forall|k: int| j <= k < line@.len() ==> is_space(line@[k]),
            i < j ==> !is_space(line@[i as int]),
        decreases j,
    {
        j = j - 1;
    }
    proof {
        lemma_trim_is_subrange(line@, i as int, j as int);
    }
    vstd::slice::slice_to_vec(vstd::slice::slice_subrange(line.as_slice(), i, j))
}

/// The lines of a byte stream, split at newline bytes. A final fragment
/// without a trailing newline is a line of its own; a trailing newline
/// opens no further empty line.
pub open spec fn spec_lines(s: Seq<u8>) -> Seq<Seq<u8>>
    decreases s.len(),
{
    if s.len() == 0 {
        Seq::<Seq<u8>>::empty()
    } else if s[0] == 10 {
        seq![Seq::<u8>::empty()] + spec_lines(s.drop_first())
    } else {
        let rest = spec_lines(s.drop_first());
        if rest.len() == 0 {
            seq![seq![s[0]]]
        } else {
            seq![seq![s[0]] + rest[0]] + rest.drop_first()
        }
    }
}

/// The lines that a partial line `cur` still opens in front of `rest`.
spec fn glue(cur: Seq<u8>, rest: Seq<Seq<u8>>) -> Seq<Seq<u8>> {
    if rest.len() == 0 {
        if cur.len() == 0 {
            Seq::<Seq<u8>>::empty()
        } else {
            seq![cur]
        }
    } else {
        seq![cur + rest[0]] + rest.drop_first()
    }
}

proof fn lemma_glue_step(s: Seq<u8>, i: int, cur: Seq<u8>)
    requires
        0 <= i < s.len(),
    ensures
        s[i] == 10 ==> glue(cur, spec_lines(s.skip(i))) == seq![cur] + glue(
            Seq::<u8>::empty(),
            spec_lines(s.skip(i + 1)),
        ),
        s[i] != 10 ==> glue(cur, spec_lines(s.skip(i))) == glue(
            cur.push(s[i]),
            spec_lines(s.skip(i + 1)),
        ),
{
    let suffix = s.skip(i);
    assert(suffix.drop_first() =~= s.skip(i + 1));
    let rest = spec_lines(s.skip(i + 1));
    if s[i] == 10 {
        assert(spec_lines(suffix) == seq![Seq::<u8>::empty()] + rest);
        let with_nl = seq![Seq::<u8>::empty()] + rest;
        assert(with_nl.drop_first() =~= rest);
        assert(cur + with_nl[0] =~= cur);
        if rest.len() == 0 {
            assert(glue(cur, spec_lines(suffix)) =~= seq![cur] + glue(Seq::<u8>::empty(), rest));
        } else {
            assert(seq![rest[0]] + rest.drop_first() =~= rest);
            assert(glue(cur, spec_lines(suffix)) =~= seq![cur] + glue(Seq::<u8>::empty(), rest));
        }
    } else {
        if rest.len() == 0 {
            assert(spec_lines(suffix) == seq![seq![suffix[0]]]);
            assert(cur + seq![s[i]] =~= cur.push(s[i]));
            assert(glue(cur, spec_lines(suffix)) =~= glue(cur.push(s[i]), rest));
        } else {
            assert(spec_lines(suffix) == seq![seq![suffix[0]] + rest[0]] + rest.drop_first());
            assert((seq![seq![suffix[0]] + rest[0]] + rest.drop_first()).drop_first()
                =~= rest.drop_first());
            assert(cur + (seq![s[i]] + rest[0]) =~= cur.push(s[i]) + rest[0]);
            assert(glue(cur, spec_lines(suffix)) =~= glue(cur.push(s[i]), rest));
        }
    }
}

/// Split `content` into its lines, as `spec_lines` lays them out.
pub fn split_lines(content: &Vec<u8>) -> (r: Vec<Vec<u8>>)
    ensures
        r.deep_view() == spec_lines(content@),
{
    let mut acc: Vec<Vec<u8>> = Vec::new();
    let mut cur: Vec<u8> = Vec::new();
    let mut i: usize = 0;
    proof {
        assert(content@.skip(0) =~= content@);
        assert(acc.deep_view() + glue(cur@, spec_lines(content@)) =~~= spec_lines(content@));
    }
    while i < content.len()
        invariant
            i <= content@.len(),
            spec_lines(content@) == acc.deep_view() + glue(cur@, spec_lines(content@.skip(i as int))),
        decreases content@.len() - i,
    {
        let b = content[i];
        proof {
            lemma_glue_step(content@, i as int, cur@);
        }
        if b == 10 {
            let ghost old_acc = acc.deep_view();
            let ghost old_cur = cur@;
            acc.push(cur);
            cur = Vec::new();
            proof {
                assert(acc.deep_view() =~~= old_acc.push(old_cur));
                assert(old_acc + (seq![old_cur] + glue(cur@, spec_lines(content@.skip(i + 1))))
                    =~~= acc.deep_view() + glue(cur@, spec_lines(content@.skip(i + 1))));
            }
        } else {
            cur.push(b);
        }
        i = i + 1;
    }
    proof {
        assert(content@.skip(content@.len() as int) =~= Seq::<u8>::empty());
    }
    if cur.len() > 0 {
        let ghost old_acc = acc.deep_view();
        let ghost old_cur = cur@;
        acc.push(cur);
        proof {
            assert(acc.deep_view() =~~= old_acc.push(old_cur));
            assert(old_acc + glue(old_cur, spec_lines(Seq::<u8>::empty())) =~~= acc.deep_view());
        }
    } else {
        proof {
            assert(acc.deep_view() + glue(cur@, spec_lines(Seq::<u8>::empty())) =~~= acc.deep_view());
        }
    }
    acc
}

/// A line that names no path: blank once trimmed, or a comment whose first
/// non-whitespace byte is `#`.
pub open spec fn skip_line(line: Seq<u8>) -> bool {
    spec_trim(line).len() == 0 || spec_trim(line)[0] == 35
}

} // verus!
