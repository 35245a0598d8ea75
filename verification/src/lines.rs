//! What `lines`, `words` and `join` make of texts that are put together from
//! known pieces.

use crate::text::{
    crlf, find, is_whitespace, join, lemma_find_unique, lemma_position, lines, matches_at,
    position, strip_cr, words_from,
};
use vstd::prelude::*;

verus! {

/// Whether `c` stands nowhere in `s`.
pub open spec fn free_of(s: Seq<char>, c: char) -> bool {
    forall|i: int| 0 <= i < s.len() ==> s[i] != c
}

/// Whether no character of `s` is whitespace.
pub open spec fn no_whitespace(s: Seq<char>) -> bool {
    forall|i: int| 0 <= i < s.len() ==> !is_whitespace(s[i])
}

/// Whether each of `lines` is free of line feeds.
pub open spec fn single_lines(lines: Seq<Seq<char>>) -> bool {
    forall|i: int| 0 <= i < lines.len() ==> free_of(#[trigger] lines[i], '\n')
}

/// Whether none of `lines` is empty.
pub open spec fn no_empty_line(lines: Seq<Seq<char>>) -> bool {
    forall|i: int| 0 <= i < lines.len() ==> (#[trigger] lines[i]).len() > 0
}

/// The first `c` of a text that begins with a piece free of `c` is the first
/// `c` of what follows the piece.
pub proof fn lemma_position_after(a: Seq<char>, b: Seq<char>, c: char)
    requires
        free_of(a, c),
    ensures
        position(a + b, c) == a.len() + position(b, c),
    decreases a.len(),
{
    if a.len() == 0 {
        assert(a + b =~= b);
    } else {
        assert((a + b)[0] == a[0]);
        assert((a + b).drop_first() =~= a.drop_first() + b);
        assert forall|i: int| 0 <= i < a.drop_first().len() implies a.drop_first()[i] != c by {
            assert(a.drop_first()[i] == a[i + 1]);
        }
        lemma_position_after(a.drop_first(), b, c);
    }
}

/// In a text free of `c`, `position` gives the length.
pub proof fn lemma_position_none(a: Seq<char>, c: char)
    requires
        free_of(a, c),
    ensures
        position(a, c) == a.len(),
{
    lemma_position_after(a, Seq::empty(), c);
    assert(a + Seq::<char>::empty() =~= a);
}

/// A line with its line ending, before more text, is the first line.
pub proof fn lemma_lines_first(line: Seq<char>, rest: Seq<char>)
    requires
        free_of(line, '\n'),
    ensures
        lines(line + crlf() + rest) == seq![line] + lines(rest),
{
    let s = line + crlf() + rest;
    assert(s =~= line + (crlf() + rest));
    lemma_position_after(line, crlf() + rest, '\n');
    assert((crlf() + rest)[0] == '\r');
    assert((crlf() + rest).drop_first()[0] == '\n');
    assert(position((crlf() + rest).drop_first(), '\n') == 0);
    assert(position(crlf() + rest, '\n') == 1);
    let n = position(s, '\n') as int;
    assert(n == line.len() + 1);
    assert(s.take(n) =~= line.push('\r'));
    assert(strip_cr(s.take(n)) =~= line);
    assert(s.skip(n + 1) =~= rest);
}

/// A text without line feed that is not empty is its only line.
pub proof fn lemma_lines_one(line: Seq<char>)
    requires
        free_of(line, '\n'),
        line.len() > 0,
    ensures
        lines(line) == seq![line],
{
    lemma_position_none(line, '\n');
}

/// A joined text is its first line, the separator, and the other lines joined.
pub proof fn lemma_join_first(lines: Seq<Seq<char>>, sep: Seq<char>)
    requires
        lines.len() >= 2,
    ensures
        join(lines, sep) == lines[0] + sep + join(lines.drop_first(), sep),
    decreases lines.len(),
{
    let front = lines.drop_last();
    let back = lines.drop_first();
    if lines.len() == 2 {
        assert(front =~= seq![lines[0]]);
        assert(back =~= seq![lines[1]]);
        assert(join(front, sep) == lines[0]);
        assert(join(back, sep) == lines[1]);
    } else {
        lemma_join_first(front, sep);
        assert(front.drop_first() =~= back.drop_last());
        assert(front[0] == lines[0]);
        assert(back.last() == lines.last());
        assert(join(back, sep) == join(back.drop_last(), sep) + sep + back.last());
        assert(join(lines, sep) =~= lines[0] + sep + join(back, sep));
    }
}

/// Lines that are joined by line endings come back as they were, where each
/// is free of line feeds and none is empty.
pub proof fn lemma_lines_join(all: Seq<Seq<char>>)
    requires
        single_lines(all),
        no_empty_line(all),
    ensures
        lines(join(all, crlf())) == all,
    decreases all.len(),
{
    if all.len() == 0 {
    } else if all.len() == 1 {
        lemma_lines_one(all[0]);
        assert(all =~= seq![all[0]]);
    } else {
        let rest = all.drop_first();
        lemma_join_first(all, crlf());
        assert forall|i: int| 0 <= i < rest.len() implies free_of(#[trigger] rest[i], '\n') by {
            assert(rest[i] == all[i + 1]);
        }
        assert forall|i: int| 0 <= i < rest.len() implies (#[trigger] rest[i]).len() > 0 by {
            assert(rest[i] == all[i + 1]);
        }
        lemma_lines_join(rest);
        lemma_lines_first(all[0], join(rest, crlf()));
        assert(seq![all[0]] + rest =~= all);
    }
}

/// A run of characters that are no whitespace goes to the word that is being
/// read.
pub proof fn lemma_words_run(run: Seq<char>, rest: Seq<char>, cur: Seq<char>)
    requires
        no_whitespace(run),
    ensures
        words_from(run + rest, cur) == words_from(rest, cur + run),
    decreases run.len(),
{
    if run.len() == 0 {
        assert(run + rest =~= rest);
        assert(cur + run =~= cur);
    } else {
        let s = run + rest;
        assert(s[0] == run[0]);
        assert(s.drop_first() =~= run.drop_first() + rest);
        assert forall|i: int| 0 <= i < run.drop_first().len() implies !is_whitespace(
            run.drop_first()[i],
        ) by {
            assert(run.drop_first()[i] == run[i + 1]);
        }
        lemma_words_run(run.drop_first(), rest, cur.push(run[0]));
        assert(cur.push(run[0]) + run.drop_first() =~= cur + run);
    }
}

/// A word and a space: the word is done and the rest follows.
pub proof fn lemma_words_word(word: Seq<char>, rest: Seq<char>)
    requires
        no_whitespace(word),
        word.len() > 0,
    ensures
        words_from(word + seq![' '] + rest, Seq::empty()) == seq![word] + words_from(
            rest,
            Seq::empty(),
        ),
{
    let tail = seq![' '] + rest;
    assert(word + seq![' '] + rest =~= word + tail);
    lemma_words_run(word, tail, Seq::empty());
    assert(Seq::<char>::empty() + word =~= word);
    assert(tail[0] == ' ');
    assert(tail.drop_first() =~= rest);
}

/// A word at the end of the text is the last word.
pub proof fn lemma_words_last(word: Seq<char>)
    requires
        no_whitespace(word),
        word.len() > 0,
    ensures
        words_from(word, Seq::empty()) == seq![word],
{
    lemma_words_run(word, Seq::empty(), Seq::empty());
    assert(word + Seq::<char>::empty() =~= word);
    assert(Seq::<char>::empty() + word =~= word);
}

/// The lines one after the other, each followed by `end`.
pub open spec fn ended<T>(lines: Seq<Seq<T>>, end: Seq<T>) -> Seq<T>
    decreases lines.len(),
{
    if lines.len() == 0 {
        Seq::empty()
    } else {
        lines[0] + end + ended(lines.drop_first(), end)
    }
}

/// Whether `x` stands nowhere in any of `lines`.
pub open spec fn lines_free_of<T>(lines: Seq<Seq<T>>, x: T) -> bool {
    forall|i: int, k: int| 0 <= i < lines.len() && 0 <= k < lines[i].len() ==> lines[i][k] != x
}

/// Whether no line after the first is empty.
pub open spec fn later_lines_filled<T>(lines: Seq<Seq<T>>) -> bool {
    forall|i: int| 1 <= i < lines.len() ==> (#[trigger] lines[i]).len() > 0
}

/// Lines with their endings, where there are any, end with the ending.
pub proof fn lemma_ended_end<T>(lines: Seq<Seq<T>>, end: Seq<T>)
    requires
        lines.len() > 0,
    ensures
        ended(lines, end).len() >= end.len(),
        ended(lines, end).skip(ended(lines, end).len() - end.len()) == end,
    decreases lines.len(),
{
    let rest = lines.drop_first();
    let all = ended(lines, end);
    if rest.len() == 0 {
        assert(ended(rest, end) =~= Seq::<T>::empty());
        assert(all.skip(all.len() - end.len()) =~= end);
    } else {
        lemma_ended_end(rest, end);
        let tail = ended(rest, end);
        assert(all.skip(all.len() - end.len()) =~= tail.skip(tail.len() - end.len()));
    }
}

/// In lines with their endings, before an empty line and whatever follows,
/// two line endings in a row stand nowhere before the end of the last line.
/// `cr` and `nl` are the two items of a line ending. The lines hold no `nl`,
/// and none after the first is empty.
pub proof fn lemma_no_early_blank<T>(lines: Seq<Seq<T>>, cr: T, nl: T, rest: Seq<T>, at: int)
    requires
        cr != nl,
        lines_free_of(lines, nl),
        later_lines_filled(lines),
        matches_at(ended(lines, seq![cr, nl]) + seq![cr, nl] + rest, seq![cr, nl, cr, nl], at),
    ensures
        at >= ended(lines, seq![cr, nl]).len() - 2,
    decreases lines.len(),
{
    let end = seq![cr, nl];
    let mark = seq![cr, nl, cr, nl];
    let all = ended(lines, end) + end + rest;
    if lines.len() > 0 {
        let first = lines[0];
        let later = lines.drop_first();
        let tail = ended(later, end) + end + rest;
        let n = first.len() as int;
        assert(all =~= first + end + tail);
        assert(all.subrange(at, at + 4)[0] == cr);
        assert(all.subrange(at, at + 4)[1] == nl);
        assert(all.subrange(at, at + 4)[2] == cr);
        assert(all.subrange(at, at + 4)[3] == nl);
        assert(all[at] == cr && all[at + 1] == nl && all[at + 2] == cr && all[at + 3] == nl);
        if at + 1 < n {
            assert(all[at + 1] == first[at + 1]);
            assert(false);
        } else if at + 1 == n {
            assert(all[n] == end[0]);
            assert(false);
        } else if at == n {
            if later.len() > 0 {
                let second = later[0];
                assert(second == lines[1]);
                assert(second.len() > 0);
                assert(tail =~= second + end + (ended(later.drop_first(), end) + end + rest));
                assert(all[at + 2] == tail[0]);
                assert(all[at + 3] == tail[1]);
                if second.len() >= 2 {
                    assert(tail[1] == second[1]);
                    assert(false);
                } else {
                    assert(tail[1] == end[0]);
                    assert(false);
                }
            } else {
                assert(ended(later, end) =~= Seq::<T>::empty());
            }
        } else if at == n + 1 {
            assert(all[at] == end[1]);
            assert(false);
        } else {
            assert(all.subrange(at, at + 4) =~= tail.subrange(at - n - 2, at - n + 2));
            assert(matches_at(tail, mark, at - n - 2));
            assert forall|i: int, k: int| 0 <= i < later.len() && 0 <= k < later[i].len() implies later[i][k] != nl by {
                assert(later[i] == lines[i + 1]);
            }
            assert forall|i: int| 1 <= i < later.len() implies (#[trigger] later[i]).len() > 0 by {
                assert(later[i] == lines[i + 1]);
            }
            lemma_no_early_blank(later, cr, nl, rest, at - n - 2);
        }
    }
}

/// In lines with their endings, before an empty line and whatever follows,
/// the first two line endings in a row are the ending of the last line and
/// the empty line. Where there are lines, they hold no `nl`, and none after
/// the first is empty.
pub proof fn lemma_first_blank<T>(lines: Seq<Seq<T>>, cr: T, nl: T, rest: Seq<T>)
    requires
        cr != nl,
        lines.len() > 0,
        lines_free_of(lines, nl),
        later_lines_filled(lines),
    ensures
        ended(lines, seq![cr, nl]).len() >= 2,
        find(ended(lines, seq![cr, nl]) + seq![cr, nl] + rest, seq![cr, nl, cr, nl]) == Some(
            ended(lines, seq![cr, nl]).len() - 2,
        ),
{
    let end = seq![cr, nl];
    let mark = seq![cr, nl, cr, nl];
    let head = ended(lines, end);
    let all = head + end + rest;
    let at = head.len() - 2;
    lemma_ended_end(lines, end);
    assert(head.skip(at) == end);
    assert(all.subrange(at, at + 4) =~= head.skip(at) + end);
    assert(end + end =~= mark);
    assert(matches_at(all, mark, at));
    assert forall|j: int| 0 <= j < at implies !matches_at(all, mark, j) by {
        if matches_at(all, mark, j) {
            lemma_no_early_blank(lines, cr, nl, rest, j);
        }
    }
    lemma_find_unique(all, mark, at);
}

/// Lines with their line endings, before more text, are the first lines.
pub proof fn lemma_lines_ended(all: Seq<Seq<char>>, rest: Seq<char>)
    requires
        single_lines(all),
    ensures
        lines(ended(all, crlf()) + rest) == all + lines(rest),
    decreases all.len(),
{
    if all.len() == 0 {
        assert(ended(all, crlf()) + rest =~= rest);
        assert(all + lines(rest) =~= lines(rest));
    } else {
        let later = all.drop_first();
        assert forall|i: int| 0 <= i < later.len() implies free_of(#[trigger] later[i], '\n') by {
            assert(later[i] == all[i + 1]);
        }
        lemma_lines_ended(later, rest);
        let tail = ended(later, crlf()) + rest;
        assert(ended(all, crlf()) + rest =~= all[0] + crlf() + tail);
        lemma_lines_first(all[0], tail);
        assert(seq![all[0]] + (later + lines(rest)) =~= all + lines(rest));
    }
}

/// A line ending alone is one empty line.
pub proof fn lemma_lines_blank()
    ensures
        lines(crlf()) == seq![Seq::<char>::empty()],
{
    let none = Seq::<char>::empty();
    lemma_lines_first(none, none);
    assert(none + crlf() + none =~= crlf());
    assert(lines(none) =~= Seq::<Seq<char>>::empty());
    assert(seq![none] + Seq::<Seq<char>>::empty() =~= seq![none]);
}

/// Every line of a text is free of line feeds.
pub proof fn lemma_lines_single(s: Seq<char>)
    ensures
        single_lines(lines(s)),
    decreases s.len(),
{
    if s.len() == 0 {
    } else {
        lemma_position(s, '\n');
        let n = position(s, '\n') as int;
        if n >= s.len() {
            assert(free_of(s, '\n'));
            assert forall|i: int| 0 <= i < lines(s).len() implies free_of(
                #[trigger] lines(s)[i],
                '\n',
            ) by {
                assert(lines(s)[i] == s);
            }
        } else {
            let first = strip_cr(s.take(n));
            let later = lines(s.skip(n + 1));
            lemma_lines_single(s.skip(n + 1));
            assert(free_of(first, '\n')) by {
                assert forall|k: int| 0 <= k < first.len() implies first[k] != '\n' by {
                    assert(first[k] == s[k]);
                }
            }
            assert forall|i: int| 0 <= i < lines(s).len() implies free_of(
                #[trigger] lines(s)[i],
                '\n',
            ) by {
                if i == 0 {
                    assert(lines(s)[0] == first);
                } else {
                    assert(lines(s)[i] == later[i - 1]);
                }
            }
        }
    }
}

} // verus!
