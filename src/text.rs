use vstd::prelude::*;

verus! {

/// The lines of a text, split at each `'\n'`. A text without a newline is one
/// line, the empty text included; a trailing newline ends with an empty line.
pub open spec fn lines_of(s: Seq<char>) -> Seq<Seq<char>>
    decreases s.len(),
{
    if s.len() == 0 {
        seq![Seq::empty()]
    } else {
        let prev = lines_of(s.drop_last());
        if s.last() == '\n' {
            prev.push(Seq::empty())
        } else {
            prev.update(prev.len() - 1, prev.last().push(s.last()))
        }
    }
}

/// The lines joined with `'\n'` between each two.
pub open spec fn join_lines(ls: Seq<Seq<char>>) -> Seq<char>
    decreases ls.len(),
{
    if ls.len() == 0 {
        Seq::empty()
    } else if ls.len() == 1 {
        ls[0]
    } else {
        join_lines(ls.drop_last()) + seq!['\n'] + ls.last()
    }
}

pub open spec fn rows_view(rows: Seq<Vec<char>>) -> Seq<Seq<char>> {
    rows.map_values(|r: Vec<char>| r@)
}

pub proof fn lemma_lines_nonempty(s: Seq<char>)
    ensures
        lines_of(s).len() >= 1,
    decreases s.len(),
{
    if s.len() > 0 {
        lemma_lines_nonempty(s.drop_last());
    }
}

proof fn lemma_join_extend_last(ls: Seq<Seq<char>>, c: char)
    requires
        ls.len() >= 1,
    ensures
        join_lines(ls.update(ls.len() - 1, ls.last().push(c))) == join_lines(ls).push(c),
{
    let up = ls.update(ls.len() - 1, ls.last().push(c));
    if ls.len() == 1 {
        assert(join_lines(up) == up[0]);
    } else {
        assert(up.drop_last() =~= ls.drop_last());
        assert(join_lines(up) == join_lines(ls.drop_last()) + seq!['\n'] + ls.last().push(c));
        assert(join_lines(up) =~= join_lines(ls).push(c));
    }
}

/// Joining the lines of a text with newlines gives the text back.
pub proof fn lemma_join_lines_of(s: Seq<char>)
    ensures
        join_lines(lines_of(s)) == s,
    decreases s.len(),
{
    if s.len() > 0 {
        let prev = lines_of(s.drop_last());
        lemma_join_lines_of(s.drop_last());
        lemma_lines_nonempty(s.drop_last());
        if s.last() == '\n' {
            let ls = prev.push(Seq::<char>::empty());
            assert(ls.drop_last() =~= prev);
            assert(join_lines(ls) =~= s);
        } else {
            lemma_join_extend_last(prev, s.last());
            assert(s.drop_last().push(s.last()) =~= s);
        }
    }
}

/// Splits a text into its lines, at each `'\n'`.
pub fn split_lines(s: &Vec<char>) -> (r: Vec<Vec<char>>)
    ensures
        rows_view(r@) == lines_of(s@),
{
    let mut lines: Vec<Vec<char>> = Vec::new();
    let mut cur: Vec<char> = Vec::new();
    let mut i: usize = 0;
    assert(s@.take(0) =~= Seq::<char>::empty());
    while i < s.len()
        invariant
            i <= s@.len(),
            rows_view(lines@).push(cur@) == lines_of(s@.take(i as int)),
        decreases s.len() - i,
    {
        let c = s[i];
        assert(s@.take(i + 1).drop_last() =~= s@.take(i as int));
        if c == '\n' {
            lines.push(cur);
            cur = Vec::new();
            assert(rows_view(lines@).push(cur@) =~= lines_of(s@.take(i as int)).push(
                Seq::empty(),
            ));
        } else {
            let ghost before = cur@;
            cur.push(c);
            assert(rows_view(lines@).push(cur@) =~= rows_view(lines@).push(before).update(
                lines@.len() as int,
                before.push(c),
            ));
        }
        i = i + 1;
    }
    assert(s@.take(s@.len() as int) =~= s@);
    lines.push(cur);
    assert(rows_view(lines@) =~= lines_of(s@));
    lines
}

/// Appends `src` to the end of `dst`.
pub fn append_chars(dst: &mut Vec<char>, src: &Vec<char>)
    ensures
        final(dst)@ == old(dst)@ + src@,
{
    let mut j: usize = 0;
    while j < src.len()
        invariant
            j <= src@.len(),
            dst@ == old(dst)@ + src@.take(j as int),
        decreases src.len() - j,
    {
        dst.push(src[j]);
        j = j + 1;
        assert(dst@ =~= old(dst)@ + src@.take(j as int));
    }
    assert(src@.take(src@.len() as int) =~= src@);
}

/// Joins lines into one text, with `'\n'` between each two.
pub fn join_rows(rows: &Vec<Vec<char>>) -> (r: Vec<char>)
    ensures
        r@ == join_lines(rows_view(rows@)),
{
    let mut out: Vec<char> = Vec::new();
    let mut i: usize = 0;
    while i < rows.len()
        invariant
            i <= rows@.len(),
            out@ == join_lines(rows_view(rows@.take(i as int))),
        decreases rows.len() - i,
    {
        let ghost before = out@;
        if i > 0 {
            out.push('\n');
        }
        append_chars(&mut out, &rows[i]);
        let ghost ls = rows_view(rows@.take(i + 1));
        assert(ls.drop_last() =~= rows_view(rows@.take(i as int)));
        assert(ls.last() == rows@[i as int]@);
        if i == 0 {
            assert(out@ =~= join_lines(ls));
        } else {
            assert(out@ =~= join_lines(ls));
        }
        i = i + 1;
    }
    assert(rows@.take(rows@.len() as int) =~= rows@);
    out
}

/// Relies on `str::chars`: the characters of the text, in order.
#[verifier::external_body]
pub(crate) fn chars_of(s: &str) -> (r: Vec<char>)
    ensures
        r@ == s@,
{
    s.chars().collect()
}

/// Relies on `String: FromIterator<char>`: the text made of these characters.
#[verifier::external_body]
pub(crate) fn string_of(v: &Vec<char>) -> (r: String)
    ensures
        r@ == v@,
{
    v.iter().collect()
}

} // verus!
