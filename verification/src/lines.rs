//! Text made of lines.
use vstd::prelude::*;

use crate::text;
use crate::text::{chars_of, find_from, push_text, text_between};

verus! {

/// A line without the carriage return that it may end with.
pub open spec fn without_return(line: Seq<char>) -> Seq<char> {
    if line.len() > 0 && line.last() == '\r' {
        line.drop_last()
    } else {
        line
    }
}

/// The lines of a text. A line ends with a line feed, or a carriage return and a line feed;
/// the last line may end with the text, unless it is empty.
pub open spec fn lines(s: Seq<char>) -> Seq<Seq<char>>
    decreases s.len(),
{
    let k = text::find(s, '\n');
    if k < s.len() {
        seq![without_return(s.take(k as int))] + lines(s.skip(k as int + 1))
    } else if s.len() > 0 {
        seq![s]
    } else {
        Seq::empty()
    }
}

/// The lines of a text.
pub fn split_lines(s: &str) -> (r: Vec<String>)
    ensures
        text::texts(r@) == lines(s@),
{
    let chars: Vec<char> = chars_of(s);
    let mut r: Vec<String> = Vec::new();
    let mut i: usize = 0;
    proof {
        assert(chars@.skip(0) =~= s@);
        assert(text::texts(r@) + lines(s@) =~= lines(s@));
    }
    while i < chars.len()
        invariant
            i <= chars@.len(),
            lines(s@) == text::texts(r@) + lines(chars@.skip(i as int)),
        decreases chars@.len() - i,
    {
        let ghost rest = chars@.skip(i as int);
        let ghost before = text::texts(r@);
        let k: usize = find_from(&chars, i, '\n');
        if k < chars.len() {
            let end: usize = if k > i && chars[k - 1] == '\r' {
                k - 1
            } else {
                k
            };
            push_text(&mut r, text_between(&chars, i, end));
            proof {
                let line = rest.take(k - i);
                assert(line.len() > 0 ==> line.last() == chars@[k - 1]);
                assert(chars@.subrange(i as int, end as int) =~= without_return(line));
                assert(rest.skip(k - i + 1) =~= chars@.skip(k + 1));
                let later = lines(chars@.skip(k + 1));
                assert(before + (seq![without_return(line)] + later) =~= before.push(
                    without_return(line),
                ) + later);
            }
            i = k + 1;
        } else {
            push_text(&mut r, text_between(&chars, i, k));
            proof {
                assert(chars@.subrange(i as int, k as int) =~= rest);
                assert(before + seq![rest] =~= before.push(rest));
                assert(chars@.skip(k as int) =~= Seq::empty());
                assert(before.push(rest) + Seq::<Seq<char>>::empty() =~= before.push(rest));
            }
            i = k;
        }
    }
    proof {
        assert(chars@.skip(i as int) =~= Seq::empty());
        assert(text::texts(r@) + Seq::<Seq<char>>::empty() =~= text::texts(r@));
    }
    r
}

/// Whether a text can be a line: it holds no line feed and ends with no carriage return.
pub open spec fn is_line(s: Seq<char>) -> bool {
    !s.contains('\n') && !(s.len() > 0 && s.last() == '\r')
}

/// A line with its line feed, in front of a text, is the first line of the whole.
pub proof fn lemma_line_first(line: Seq<char>, rest: Seq<char>)
    requires
        is_line(line),
    ensures
        lines(line + seq!['\n'] + rest) == seq![line] + lines(rest),
{
    let whole = line + seq!['\n'] + rest;
    text::lemma_find_is(whole, '\n', line.len() as int);
    assert(whole.take(line.len() as int) =~= line);
    assert(whole.skip(line.len() as int + 1) =~= rest);
}

/// Reading back lines that were joined by line feeds, with one behind the last, gives the
/// lines; what follows them is read on its own.
pub proof fn lemma_lines_of_joined(list: Seq<Seq<char>>, rest: Seq<char>)
    requires
        list.len() > 0,
        forall|i: int| 0 <= i < list.len() ==> is_line(#[trigger] list[i]),
    ensures
        lines(text::joined(list, seq!['\n']) + seq!['\n'] + rest) == list + lines(rest),
    decreases list.len(),
{
    let feed = seq!['\n'];
    if list.len() == 1 {
        lemma_line_first(list[0], rest);
        assert(list =~= seq![list[0]]);
    } else {
        let tail = list.skip(1);
        assert forall|i: int| 0 <= i < tail.len() implies is_line(#[trigger] tail[i]) by {
            assert(tail[i] == list[i + 1]);
        }
        lemma_lines_of_joined(tail, rest);
        let later = text::joined(tail, feed) + feed + rest;
        lemma_line_first(list[0], later);
        assert(text::joined(list, feed) + feed + rest =~= list[0] + feed + later);
        assert(seq![list[0]] + (tail + lines(rest)) =~= list + lines(rest));
    }
}

/// Text behind a line feed is read on its own.
pub proof fn law_lines_add_up(s: Seq<char>, rest: Seq<char>)
    requires
        s.len() > 0 ==> s.last() == '\n',
    ensures
        lines(s + rest) == lines(s) + lines(rest),
    decreases s.len(),
{
    if s.len() == 0 {
        assert(s + rest =~= rest);
        assert(lines(s) + lines(rest) =~= lines(rest));
    } else {
        let whole = s + rest;
        let k = text::find(s, '\n');
        text::lemma_find(s, '\n');
        assert(s[s.len() - 1] == '\n');
        assert(s.contains('\n'));
        assert forall|i: int| 0 <= i < k implies whole[i] != '\n' by {
            assert(whole[i] == s[i]);
        }
        text::lemma_find_is(whole, '\n', k as int);
        let later = s.skip(k as int + 1);
        assert(whole.take(k as int) =~= s.take(k as int));
        assert(whole.skip(k as int + 1) =~= later + rest);
        if later.len() > 0 {
            assert(later.last() == s.last());
        }
        law_lines_add_up(later, rest);
        let first = seq![without_return(s.take(k as int))];
        assert(first + (lines(later) + lines(rest)) =~= first + lines(later) + lines(rest));
    }
}

/// A line ends with a line feed, with or without a carriage return before it, which is no part
/// of the line; and the last line may end with the text, and then keeps all of its characters.
pub proof fn law_ends_of_lines(line: Seq<char>, rest: Seq<char>)
    requires
        !line.contains('\n'),
    ensures
        lines(line + seq!['\r', '\n'] + rest) == seq![line] + lines(rest),
        line.len() == 0 || line.last() != '\r' ==> lines(line + seq!['\n'] + rest) == seq![line]
            + lines(rest),
        line.len() > 0 ==> lines(line) == seq![line],
        lines(Seq::empty()) == Seq::<Seq<char>>::empty(),
{
    let whole = line + seq!['\r', '\n'] + rest;
    let k = line.len() as int + 1;
    assert forall|i: int| 0 <= i < k implies whole[i] != '\n' by {
        if i < line.len() {
            assert(whole[i] == line[i]);
        }
    }
    text::lemma_find_is(whole, '\n', k);
    assert(whole.take(k) =~= line.push('\r'));
    assert(line.push('\r').drop_last() =~= line);
    assert(whole.skip(k + 1) =~= rest);
    if line.len() == 0 || line.last() != '\r' {
        lemma_line_first(line, rest);
    }
    text::lemma_find(line, '\n');
}

} // verus!
