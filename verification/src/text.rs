//! Character sequences: splitting at a separator, joining, lines of a
//! text, and the executable routines that split a string.

use vstd::prelude::*;
use vstd::std_specs::iter::IteratorSpec;

verus! {

/// `c` does not occur in `s`.
pub open spec fn free_of(s: Seq<char>, c: char) -> bool {
    forall|i: int| 0 <= i < s.len() ==> s[i] != c
}

/// Every part is free of `c`.
pub open spec fn parts_free_of(parts: Seq<Seq<char>>, c: char) -> bool {
    forall|k: int| 0 <= k < parts.len() ==> free_of(#[trigger] parts[k], c)
}

/// The pieces of `s` between occurrences of `sep`, in order. A sequence
/// with `n` separators has `n + 1` pieces; pieces may be empty.
pub open spec fn split(s: Seq<char>, sep: char) -> Seq<Seq<char>>
    decreases s.len(),
{
    if s.len() == 0 {
        seq![Seq::<char>::empty()]
    } else {
        let before = split(s.drop_last(), sep);
        if s.last() == sep {
            before.push(Seq::<char>::empty())
        } else {
            before.update(before.len() - 1, before.last().push(s.last()))
        }
    }
}

/// The parts written one after another with `sep` between neighbours.
pub open spec fn join(parts: Seq<Seq<char>>, sep: char) -> Seq<char>
    decreases parts.len(),
{
    if parts.len() == 0 {
        Seq::<char>::empty()
    } else if parts.len() == 1 {
        parts[0]
    } else {
        join(parts.drop_last(), sep).push(sep) + parts.last()
    }
}

/// Each line followed by a line feed.
pub open spec fn unlines(lines: Seq<Seq<char>>) -> Seq<char>
    decreases lines.len(),
{
    if lines.len() == 0 {
        Seq::<char>::empty()
    } else {
        (unlines(lines.drop_last()) + lines.last()).push('\n')
    }
}

/// The lines of a text: its pieces between line feeds.
pub open spec fn lines_of(text: Seq<char>) -> Seq<Seq<char>> {
    split(text, '\n')
}

/// How many entries of `lines` equal `line`.
pub open spec fn count_lines(lines: Seq<Seq<char>>, line: Seq<char>) -> nat
    decreases lines.len(),
{
    if lines.len() == 0 {
        0
    } else {
        count_lines(lines.drop_last(), line) + if lines.last() == line {
            1nat
        } else {
            0nat
        }
    }
}

/// `s` begins with `prefix`.
pub open spec fn starts_with(s: Seq<char>, prefix: Seq<char>) -> bool {
    prefix.len() <= s.len() && s.take(prefix.len() as int) == prefix
}

/// `s` ends with `suffix`.
pub open spec fn ends_with(s: Seq<char>, suffix: Seq<char>) -> bool {
    suffix.len() <= s.len() && s.skip(s.len() - suffix.len()) == suffix
}

/// A split has at least one piece.
pub proof fn lemma_split_nonempty(s: Seq<char>, sep: char)
    ensures
        split(s, sep).len() >= 1,
    decreases s.len(),
{
    if s.len() > 0 {
        lemma_split_nonempty(s.drop_last(), sep);
    }
}

/// Joining the pieces of a split gives the sequence back.
pub proof fn lemma_join_split(s: Seq<char>, sep: char)
    ensures
        join(split(s, sep), sep) == s,
    decreases s.len(),
{
    if s.len() > 0 {
        let front = s.drop_last();
        let before = split(front, sep);
        lemma_join_split(front, sep);
        lemma_split_nonempty(front, sep);
        assert(s == front.push(s.last()));
        if s.last() == sep {
            let after = before.push(Seq::<char>::empty());
            assert(after.drop_last() == before);
            assert(join(after, sep) == join(before, sep).push(sep) + Seq::<char>::empty());
        } else {
            lemma_join_push_last(before, s.last(), sep);
        }
    }
}

/// Appending a character to the last part appends it to the joined text.
pub proof fn lemma_join_push_last(parts: Seq<Seq<char>>, c: char, sep: char)
    requires
        parts.len() >= 1,
    ensures
        join(parts.update(parts.len() - 1, parts.last().push(c)), sep) == join(parts, sep).push(c),
{
    let after = parts.update(parts.len() - 1, parts.last().push(c));
    if parts.len() == 1 {
        assert(join(after, sep) == after[0]);
    } else {
        assert(after.drop_last() == parts.drop_last());
        assert(join(after, sep) == join(parts.drop_last(), sep).push(sep) + parts.last().push(c));
        assert(join(parts.drop_last(), sep).push(sep) + parts.last().push(c) == (join(
            parts.drop_last(),
            sep,
        ).push(sep) + parts.last()).push(c));
    }
}

/// Splitting a joined text gives the parts back, provided there is at
/// least one part and no part contains the separator.
pub proof fn lemma_split_join(parts: Seq<Seq<char>>, sep: char)
    requires
        parts.len() >= 1,
        parts_free_of(parts, sep),
    ensures
        split(join(parts, sep), sep) == parts,
    decreases parts.len(), parts.last().len(),
{
    let last = parts.last();
    assert(free_of(last, sep));
    if last.len() == 0 {
        assert(last =~= Seq::<char>::empty());
        if parts.len() == 1 {
            assert(parts == seq![Seq::<char>::empty()]);
        } else {
            let front = parts.drop_last();
            assert(parts_free_of(front, sep)) by {
                assert forall|k: int| 0 <= k < front.len() implies free_of(
                    #[trigger] front[k],
                    sep,
                ) by {
                    assert(front[k] == parts[k]);
                }
            }
            lemma_split_join(front, sep);
            let text = join(parts, sep);
            assert(text == join(front, sep).push(sep));
            assert(text.drop_last() == join(front, sep));
            assert(parts == front.push(Seq::<char>::empty()));
        }
    } else {
        let c = last.last();
        let shorter = parts.update(parts.len() - 1, last.drop_last());
        assert(parts_free_of(shorter, sep)) by {
            assert forall|k: int| 0 <= k < shorter.len() implies free_of(
                #[trigger] shorter[k],
                sep,
            ) by {
                if k < parts.len() - 1 {
                    assert(shorter[k] == parts[k]);
                }
            }
        }
        lemma_split_join(shorter, sep);
        lemma_join_push_last(shorter, c, sep);
        assert(last.drop_last().push(c) == last);
        assert(shorter.update(shorter.len() - 1, shorter.last().push(c)) == parts);
        let text = join(parts, sep);
        assert(text == join(shorter, sep).push(c));
        assert(text.drop_last() == join(shorter, sep));
        assert(text.last() == c);
        assert(c == last[last.len() - 1]);
    }
}

/// A text made of lines is the join of those lines and one empty piece.
pub proof fn lemma_unlines_is_join(lines: Seq<Seq<char>>)
    ensures
        unlines(lines) == join(lines.push(Seq::<char>::empty()), '\n'),
    decreases lines.len(),
{
    let all = lines.push(Seq::<char>::empty());
    assert(all.drop_last() == lines);
    if lines.len() == 0 {
        assert(join(all, '\n') == all[0]);
    } else {
        lemma_unlines_is_join(lines.drop_last());
        let front = lines.drop_last();
        let front_all = front.push(Seq::<char>::empty());
        assert(front_all.drop_last() == front);
        assert(join(all, '\n') == join(lines, '\n').push('\n') + Seq::<char>::empty());
        if lines.len() == 1 {
            assert(front.len() == 0);
            assert(unlines(front) == Seq::<char>::empty());
            assert(join(lines, '\n') == lines[0]);
            assert(unlines(lines) == (Seq::<char>::empty() + lines.last()).push('\n'));
        } else {
            assert(join(front_all, '\n') == join(front, '\n').push('\n') + Seq::<char>::empty());
            assert(join(lines, '\n') == join(front, '\n').push('\n') + lines.last());
        }
    }
}

/// The lines of a text written with `unlines` are the lines it was
/// written from, followed by the empty piece after the last line feed.
pub proof fn lemma_lines_of_unlines(lines: Seq<Seq<char>>)
    requires
        parts_free_of(lines, '\n'),
    ensures
        lines_of(unlines(lines)) == lines.push(Seq::<char>::empty()),
{
    let all = lines.push(Seq::<char>::empty());
    assert(parts_free_of(all, '\n')) by {
        assert forall|k: int| 0 <= k < all.len() implies free_of(#[trigger] all[k], '\n') by {
            if k < lines.len() {
                assert(all[k] == lines[k]);
            }
        }
    }
    lemma_unlines_is_join(lines);
    lemma_split_join(all, '\n');
}

/// Writing one more line appends it and a line feed.
pub proof fn lemma_unlines_push(lines: Seq<Seq<char>>, line: Seq<char>)
    ensures
        unlines(lines.push(line)) == (unlines(lines) + line).push('\n'),
{
    assert(lines.push(line).drop_last() == lines);
}

/// One more line counts when it is the wanted one.
pub proof fn lemma_count_lines_push(lines: Seq<Seq<char>>, line: Seq<char>, wanted: Seq<char>)
    ensures
        count_lines(lines.push(line), wanted) == count_lines(lines, wanted) + if line == wanted {
            1nat
        } else {
            0nat
        },
{
    assert(lines.push(line).drop_last() == lines);
}

/// Counting over two lists in a row adds up.
pub proof fn lemma_count_lines_add(a: Seq<Seq<char>>, b: Seq<Seq<char>>, wanted: Seq<char>)
    ensures
        count_lines(a + b, wanted) == count_lines(a, wanted) + count_lines(b, wanted),
    decreases b.len(),
{
    if b.len() == 0 {
        assert(a + b == a);
    } else {
        lemma_count_lines_add(a, b.drop_last(), wanted);
        assert((a + b).drop_last() == a + b.drop_last());
        assert((a + b).last() == b.last());
    }
}

/// A list without the wanted line counts none.
pub proof fn lemma_count_lines_none(lines: Seq<Seq<char>>, wanted: Seq<char>)
    requires
        forall|k: int| 0 <= k < lines.len() ==> #[trigger] lines[k] != wanted,
    ensures
        count_lines(lines, wanted) == 0,
    decreases lines.len(),
{
    if lines.len() > 0 {
        let front = lines.drop_last();
        assert forall|k: int| 0 <= k < front.len() implies #[trigger] front[k] != wanted by {
            assert(front[k] == lines[k]);
        }
        lemma_count_lines_none(front, wanted);
        assert(lines.last() == lines[lines.len() - 1]);
    }
}

/// A list that holds the wanted line at one place only counts one.
pub proof fn lemma_count_lines_once(lines: Seq<Seq<char>>, wanted: Seq<char>, at: int)
    requires
        0 <= at < lines.len(),
        lines[at] == wanted,
        forall|k: int| 0 <= k < lines.len() && k != at ==> #[trigger] lines[k] != wanted,
    ensures
        count_lines(lines, wanted) == 1,
    decreases lines.len(),
{
    let front = lines.drop_last();
    assert(lines.last() == lines[lines.len() - 1]);
    if at == lines.len() - 1 {
        assert forall|k: int| 0 <= k < front.len() implies #[trigger] front[k] != wanted by {
            assert(front[k] == lines[k]);
        }
        lemma_count_lines_none(front, wanted);
    } else {
        assert forall|k: int| 0 <= k < front.len() && k != at implies #[trigger] front[k]
            != wanted by {
            assert(front[k] == lines[k]);
        }
        assert(front[at] == lines[at]);
        lemma_count_lines_once(front, wanted, at);
    }
}

/// The characters of a string slice, in order.
pub fn chars_of(s: &str) -> (v: Vec<char>)
    ensures
        v@ == s@,
{
    let mut v: Vec<char> = Vec::new();
    let chars = s.chars();
    for c in it: chars
        invariant
            v@ == it.seq().take(it.index() as int),
            it.seq() == s@,
    {
        v.push(c);
    }
    v
}

/// The views of a vector of character vectors.
pub open spec fn part_views(parts: Seq<Vec<char>>) -> Seq<Seq<char>> {
    Seq::new(parts.len(), |k: int| parts[k]@)
}

/// Splits `v` at every occurrence of `sep`.
pub fn split_chars(v: &Vec<char>, sep: char) -> (parts: Vec<Vec<char>>)
    ensures
        part_views(parts@) == split(v@, sep),
{
    let mut done: Vec<Vec<char>> = Vec::new();
    let mut cur: Vec<char> = Vec::new();
    let mut i: usize = 0;
    while i < v.len()
        invariant
            i <= v.len(),
            part_views(done@).push(cur@) == split(v@.take(i as int), sep),
        decreases v.len() - i,
    {
        let c = v[i];
        proof {
            assert(v@.take(i + 1).drop_last() == v@.take(i as int));
            assert(v@.take(i + 1).last() == c);
        }
        let ghost before = part_views(done@).push(cur@);
        if c == sep {
            done.push(cur);
            cur = Vec::new();
            assert(part_views(done@) == before);
        } else {
            cur.push(c);
            assert(part_views(done@).push(cur@) == before.update(
                before.len() - 1,
                before.last().push(c),
            ));
        }
        i += 1;
    }
    let ghost before = part_views(done@).push(cur@);
    done.push(cur);
    proof {
        assert(v@.take(v.len() as int) == v@);
        assert(part_views(done@) == before);
    }
    done
}

} // verus!
