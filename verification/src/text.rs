//! Text as sequences of characters: searching, trimming, joining.
use vstd::prelude::*;

verus! {

/// `String::push` of std: the character is appended at the end of the string.
pub assume_specification[ String::push ](s: &mut String, c: char)
    ensures
        final(s)@ == old(s)@.push(c),
;

/// The characters of each string of a list.
pub open spec fn texts(list: Seq<String>) -> Seq<Seq<char>> {
    list.map_values(|s: String| s@)
}

/// Appends a string to a list.
pub fn push_text(list: &mut Vec<String>, s: String)
    ensures
        texts(final(list)@) == texts(old(list)@).push(s@),
{
    list.push(s);
    assert(texts(list@) =~= texts(old(list)@).push(s@));
}

/// The characters of an optional string.
pub open spec fn opt_text(s: Option<String>) -> Option<Seq<char>> {
    match s {
        Some(t) => Some(t@),
        None => None,
    }
}

/// The index of the first `x` in `s`, or the length of `s` when it has none.
pub open spec fn find<T>(s: Seq<T>, x: T) -> nat
    decreases s.len(),
{
    if s.len() == 0 || s[0] == x {
        0
    } else {
        1 + find(s.skip(1), x)
    }
}

/// `find` points at the first occurrence, if there is one.
pub proof fn lemma_find<T>(s: Seq<T>, x: T)
    ensures
        find(s, x) <= s.len(),
        find(s, x) < s.len() ==> s[find(s, x) as int] == x,
        forall|i: int| 0 <= i < find(s, x) ==> s[i] != x,
        find(s, x) < s.len() <==> s.contains(x),
    decreases s.len(),
{
    if s.len() > 0 && s[0] != x {
        let rest = s.skip(1);
        lemma_find(rest, x);
        assert forall|i: int| 0 <= i < find(s, x) implies s[i] != x by {
            if i > 0 {
                assert(rest[i - 1] == s[i]);
            }
        }
        if s.contains(x) {
            let i = choose|i: int| 0 <= i < s.len() && s[i] == x;
            assert(rest[i - 1] == x);
        }
    }
}

/// An index that holds the first `x` is the one that `find` gives.
pub proof fn lemma_find_is<T>(s: Seq<T>, x: T, k: int)
    requires
        0 <= k <= s.len(),
        forall|i: int| 0 <= i < k ==> s[i] != x,
        k < s.len() ==> s[k] == x,
    ensures
        find(s, x) == k,
{
    lemma_find(s, x);
}

/// The characters of a string, one by one.
pub fn chars_of(s: &str) -> (r: Vec<char>)
    ensures
        r@ == s@,
{
    let mut r: Vec<char> = Vec::new();
    for c in it: s.chars()
        invariant
            r@ == s@.take(it.index()),
            it.seq() == s@,
    {
        r.push(c);
    }
    r
}

/// The string of the characters `from..to`.
pub fn text_between(chars: &Vec<char>, from: usize, to: usize) -> (r: String)
    requires
        from <= to <= chars@.len(),
    ensures
        r@ == chars@.subrange(from as int, to as int),
{
    let mut r = String::new();
    let mut i: usize = from;
    while i < to
        invariant
            from <= i <= to <= chars@.len(),
            r@ == chars@.subrange(from as int, i as int),
        decreases to - i,
    {
        r.push(chars[i]);
        i += 1;
    }
    r
}

/// Whether two strings hold the same characters.
pub fn same_text(a: &str, b: &str) -> (r: bool)
    ensures
        r == (a@ == b@),
{
    let x: Vec<char> = chars_of(a);
    let y: Vec<char> = chars_of(b);
    if x.len() != y.len() {
        return false;
    }
    let mut i: usize = 0;
    while i < x.len()
        invariant
            i <= x@.len(),
            x@.len() == y@.len(),
            x@ == a@,
            y@ == b@,
            forall|j: int| 0 <= j < i ==> x@[j] == y@[j],
        decreases x@.len() - i,
    {
        if x[i] != y[i] {
            return false;
        }
        i += 1;
    }
    assert(x@ =~= y@);
    true
}

/// Where `c` first occurs among `chars[from..]`, as an index into `chars`; the length of
/// `chars` when it does not.
pub fn find_from(chars: &Vec<char>, from: usize, c: char) -> (r: usize)
    requires
        from <= chars@.len(),
    ensures
        from <= r <= chars@.len(),
        r == from + find(chars@.skip(from as int), c),
{
    let mut i: usize = from;
    while i < chars.len() && chars[i] != c
        invariant
            from <= i <= chars@.len(),
            forall|j: int| from <= j < i ==> chars@[j] != c,
        decreases chars@.len() - i,
    {
        i += 1;
    }
    proof {
        let rest = chars@.skip(from as int);
        assert forall|j: int| 0 <= j < i - from implies rest[j] != c by {
            assert(rest[j] == chars@[from + j]);
        }
        lemma_find_is(rest, c, i - from);
    }
    i
}

/// Whether `c` occurs in `s`.
pub fn contains_char(s: &str, c: char) -> (r: bool)
    ensures
        r == s@.contains(c),
{
    let chars: Vec<char> = chars_of(s);
    let i: usize = find_from(&chars, 0, c);
    proof {
        assert(chars@.skip(0) =~= s@);
        lemma_find(s@, c);
    }
    i < chars.len()
}

/// Whether `s` begins with `prefix`.
pub open spec fn begins_with(s: Seq<char>, prefix: Seq<char>) -> bool {
    prefix.len() <= s.len() && s.take(prefix.len() as int) == prefix
}

/// Whether `s` begins with `prefix`.
pub fn starts_with(s: &str, prefix: &str) -> (r: bool)
    ensures
        r == begins_with(s@, prefix@),
{
    let x: Vec<char> = chars_of(s);
    let y: Vec<char> = chars_of(prefix);
    if y.len() > x.len() {
        return false;
    }
    let mut i: usize = 0;
    while i < y.len()
        invariant
            i <= y@.len() <= x@.len(),
            x@ == s@,
            y@ == prefix@,
            forall|j: int| 0 <= j < i ==> x@[j] == y@[j],
        decreases y@.len() - i,
    {
        if x[i] != y[i] {
            assert(s@.take(prefix@.len() as int)[i as int] != prefix@[i as int]);
            return false;
        }
        i += 1;
    }
    assert(s@.take(prefix@.len() as int) =~= prefix@);
    true
}

/// The characters with the Unicode property `White_Space`.
pub open spec fn is_white(c: char) -> bool {
    ||| '\u{9}' <= c <= '\u{d}'
    ||| c == ' '
    ||| c == '\u{85}'
    ||| c == '\u{a0}'
    ||| c == '\u{1680}'
    ||| '\u{2000}' <= c <= '\u{200a}'
    ||| c == '\u{2028}'
    ||| c == '\u{2029}'
    ||| c == '\u{202f}'
    ||| c == '\u{205f}'
    ||| c == '\u{3000}'
}

/// Whether `c` is white space.
pub fn is_white_space(c: char) -> (r: bool)
    ensures
        r == is_white(c),
{
    ('\u{9}' <= c && c <= '\u{d}') || c == ' ' || c == '\u{85}' || c == '\u{a0}' || c == '\u{1680}'
        || ('\u{2000}' <= c && c <= '\u{200a}') || c == '\u{2028}' || c == '\u{2029}' || c
        == '\u{202f}' || c == '\u{205f}' || c == '\u{3000}'
}

/// `s` without the white space that it begins with.
pub open spec fn trimmed_start(s: Seq<char>) -> Seq<char>
    decreases s.len(),
{
    if s.len() > 0 && is_white(s[0]) {
        trimmed_start(s.skip(1))
    } else {
        s
    }
}

/// `s` without the white space that it ends with.
pub open spec fn trimmed_end(s: Seq<char>) -> Seq<char>
    decreases s.len(),
{
    if s.len() > 0 && is_white(s.last()) {
        trimmed_end(s.drop_last())
    } else {
        s
    }
}

/// `s` without white space at either end.
pub open spec fn trimmed(s: Seq<char>) -> Seq<char> {
    trimmed_end(trimmed_start(s))
}

/// Whether `s` holds nothing but white space.
pub open spec fn is_blank(s: Seq<char>) -> bool {
    trimmed(s).len() == 0
}

/// `s` without white space at either end.
pub fn trim(s: &str) -> (r: String)
    ensures
        r@ == trimmed(s@),
{
    let chars: Vec<char> = chars_of(s);
    let mut from: usize = 0;
    assert(chars@.skip(0) =~= s@);
    while from < chars.len() && is_white_space(chars[from])
        invariant
            from <= chars@.len(),
            trimmed_start(s@) == trimmed_start(chars@.skip(from as int)),
        decreases chars@.len() - from,
    {
        assert(chars@.skip(from as int).skip(1) =~= chars@.skip(from + 1));
        from += 1;
    }
    assert(trimmed_start(s@) == chars@.skip(from as int));
    let mut to: usize = chars.len();
    assert(chars@.subrange(from as int, to as int) =~= chars@.skip(from as int));
    while from < to && is_white_space(chars[to - 1])
        invariant
            from <= to <= chars@.len(),
            trimmed(s@) == trimmed_end(chars@.subrange(from as int, to as int)),
        decreases to,
    {
        assert(chars@.subrange(from as int, to as int).drop_last() =~= chars@.subrange(
            from as int,
            to - 1,
        ));
        to -= 1;
    }
    text_between(&chars, from, to)
}

/// `parts` one after the other, with `sep` between each two of them.
pub open spec fn joined(parts: Seq<Seq<char>>, sep: Seq<char>) -> Seq<char>
    decreases parts.len(),
{
    if parts.len() == 0 {
        Seq::empty()
    } else if parts.len() == 1 {
        parts[0]
    } else {
        parts[0] + sep + joined(parts.skip(1), sep)
    }
}

/// Joining one more part puts the separator and the part behind what was joined before.
pub proof fn lemma_joined_push(parts: Seq<Seq<char>>, last: Seq<char>, sep: Seq<char>)
    requires
        parts.len() > 0,
    ensures
        joined(parts.push(last), sep) == joined(parts, sep) + sep + last,
    decreases parts.len(),
{
    let more = parts.push(last);
    assert(more.skip(1) =~= parts.skip(1).push(last));
    if parts.len() == 1 {
        assert(more.skip(1) =~= seq![last]);
        assert(joined(more.skip(1), sep) == last);
    } else {
        lemma_joined_push(parts.skip(1), last, sep);
    }
    assert(joined(more, sep) =~= joined(parts, sep) + sep + last);
}

/// `parts` one after the other, with `sep` between each two of them.
pub fn join(parts: &Vec<String>, sep: &str) -> (r: String)
    ensures
        r@ == joined(texts(parts@), sep@),
{
    let mut r = String::new();
    let mut i: usize = 0;
    while i < parts.len()
        invariant
            i <= parts@.len(),
            r@ == joined(texts(parts@.take(i as int)), sep@),
        decreases parts@.len() - i,
    {
        proof {
            assert(texts(parts@.take(i + 1)) =~= texts(parts@.take(i as int)).push(parts@[i as int]@));
            if i > 0 {
                lemma_joined_push(texts(parts@.take(i as int)), parts@[i as int]@, sep@);
            }
        }
        if i > 0 {
            r.append(sep);
        }
        r.append(parts[i].as_str());
        i += 1;
        assert(r@ =~= joined(texts(parts@.take(i as int)), sep@));
    }
    assert(parts@.take(i as int) =~= parts@);
    r
}

/// The strings `list[from..to]`.
pub fn texts_between(list: &Vec<String>, from: usize, to: usize) -> (r: Vec<String>)
    requires
        from <= to <= list@.len(),
    ensures
        texts(r@) == texts(list@).subrange(from as int, to as int),
{
    let mut r: Vec<String> = Vec::new();
    let mut i: usize = from;
    while i < to
        invariant
            from <= i <= to <= list@.len(),
            texts(r@) == texts(list@).subrange(from as int, i as int),
        decreases to - i,
    {
        push_text(&mut r, list[i].clone());
        i += 1;
        assert(texts(r@) =~= texts(list@).subrange(from as int, i as int));
    }
    r
}

/// The strings `list[from..]`.
pub fn texts_from(list: &Vec<String>, from: usize) -> (r: Vec<String>)
    requires
        from <= list@.len(),
    ensures
        texts(r@) == texts(list@).skip(from as int),
{
    let r: Vec<String> = texts_between(list, from, list.len());
    assert(texts(list@).subrange(from as int, list@.len() as int) =~= texts(list@).skip(
        from as int,
    ));
    r
}

/// A copy of a list of strings.
pub fn copy_texts(list: &Vec<String>) -> (r: Vec<String>)
    ensures
        texts(r@) == texts(list@),
{
    let r: Vec<String> = texts_from(list, 0);
    assert(texts(list@).skip(0) =~= texts(list@));
    r
}

/// The place of the first string `word` in `list[from..]`, as an index into `list`; the length
/// of `list` when there is none.
pub fn find_text(list: &Vec<String>, from: usize, word: &str) -> (r: usize)
    requires
        from <= list@.len(),
    ensures
        from <= r <= list@.len(),
        r == from + find(texts(list@).skip(from as int), word@),
{
    let mut i: usize = from;
    while i < list.len() && !same_text(list[i].as_str(), word)
        invariant
            from <= i <= list@.len(),
            forall|j: int| from <= j < i ==> #[trigger] texts(list@)[j] != word@,
        decreases list@.len() - i,
    {
        i += 1;
    }
    proof {
        let rest = texts(list@).skip(from as int);
        assert forall|j: int| 0 <= j < i - from implies rest[j] != word@ by {
            assert(rest[j] == texts(list@)[from + j]);
        }
        lemma_find_is(rest, word@, i - from);
    }
    i
}

/// Whether `word` is one of the strings of `list`.
pub fn contains_text(list: &Vec<String>, word: &str) -> (r: bool)
    ensures
        r == texts(list@).contains(word@),
{
    let i: usize = find_text(list, 0, word);
    proof {
        assert(texts(list@).skip(0) =~= texts(list@));
        lemma_find(texts(list@), word@);
    }
    i < list.len()
}

proof fn lemma_trimmed_start_is(s: Seq<char>) -> (from: int)
    ensures
        0 <= from <= s.len(),
        trimmed_start(s) == s.skip(from),
        forall|i: int| 0 <= i < from ==> is_white(#[trigger] s[i]),
        from < s.len() ==> !is_white(s[from]),
    decreases s.len(),
{
    if s.len() > 0 && is_white(s[0]) {
        let rest = s.skip(1);
        let from = lemma_trimmed_start_is(rest);
        assert(rest.skip(from) =~= s.skip(from + 1));
        assert forall|i: int| 0 <= i < from + 1 implies is_white(#[trigger] s[i]) by {
            if i > 0 {
                assert(s[i] == rest[i - 1]);
            }
        }
        from + 1
    } else {
        assert(s.skip(0) =~= s);
        0
    }
}

proof fn lemma_trimmed_end_is(s: Seq<char>) -> (to: int)
    ensures
        0 <= to <= s.len(),
        trimmed_end(s) == s.take(to),
        forall|i: int| to <= i < s.len() ==> is_white(#[trigger] s[i]),
        to > 0 ==> !is_white(s[to - 1]),
    decreases s.len(),
{
    if s.len() > 0 && is_white(s.last()) {
        let rest = s.drop_last();
        let to = lemma_trimmed_end_is(rest);
        assert(rest.take(to) =~= s.take(to));
        assert forall|i: int| to <= i < s.len() implies is_white(#[trigger] s[i]) by {
            if i < rest.len() {
                assert(s[i] == rest[i]);
            }
        }
        to
    } else {
        assert(s.take(s.len() as int) =~= s);
        s.len() as int
    }
}

/// Trimming takes away white space at the ends and nothing else: what is left is a stretch of
/// the text that neither begins nor ends with white space, and all around it was white space.
pub proof fn law_trimming(s: Seq<char>)
    ensures
        exists|before: Seq<char>, behind: Seq<char>|
            #![trigger before + trimmed(s) + behind]
            s == before + trimmed(s) + behind && (forall|i: int|
                0 <= i < before.len() ==> is_white(#[trigger] before[i])) && (forall|i: int|
                0 <= i < behind.len() ==> is_white(#[trigger] behind[i])),
        trimmed(s).len() > 0 ==> !is_white(trimmed(s)[0]) && !is_white(trimmed(s).last()),
{
    let from = lemma_trimmed_start_is(s);
    let middle = s.skip(from);
    let to = lemma_trimmed_end_is(middle);
    let before = s.take(from);
    let behind = middle.skip(to);
    assert(s =~= before + trimmed(s) + behind);
    assert forall|i: int| 0 <= i < before.len() implies is_white(#[trigger] before[i]) by {
        assert(before[i] == s[i]);
    }
    assert forall|i: int| 0 <= i < behind.len() implies is_white(#[trigger] behind[i]) by {
        assert(behind[i] == middle[to + i]);
    }
}

/// Spaces, tabs, line feeds and carriage returns are white space; no other ASCII character but
/// a vertical tab and a form feed is.
pub proof fn law_white_space(c: char)
    ensures
        c <= '\u{7f}' ==> (is_white(c) <==> c == ' ' || c == '\t' || c == '\n' || c == '\r' || c
            == '\u{b}' || c == '\u{c}'),
{
}

/// Joining puts the separator between the parts and nowhere else.
pub proof fn law_joining(first: Seq<Seq<char>>, second: Seq<Seq<char>>, sep: Seq<char>)
    requires
        first.len() > 0,
        second.len() > 0,
    ensures
        joined(first + second, sep) == joined(first, sep) + sep + joined(second, sep),
        first.len() == 1 ==> joined(first, sep) == first[0],
    decreases first.len(),
{
    let all = first + second;
    if first.len() == 1 {
        assert(all.skip(1) =~= second);
    } else {
        let rest = first.skip(1);
        assert(all.skip(1) =~= rest + second);
        law_joining(rest, second, sep);
        assert(joined(all, sep) =~= joined(first, sep) + sep + joined(second, sep));
    }
}

/// A text begins with another if and only if it is that text with something behind it.
pub proof fn law_beginnings(s: Seq<char>, prefix: Seq<char>, rest: Seq<char>)
    ensures
        begins_with(prefix + rest, prefix),
        begins_with(s, prefix) ==> s == prefix + s.skip(prefix.len() as int),
{
    assert((prefix + rest).take(prefix.len() as int) =~= prefix);
    if begins_with(s, prefix) {
        assert(s =~= s.take(prefix.len() as int) + s.skip(prefix.len() as int));
    }
}

proof fn lemma_start_of_white(s: Seq<char>, rest: Seq<char>)
    requires
        forall|i: int| 0 <= i < s.len() ==> is_white(#[trigger] s[i]),
    ensures
        trimmed_start(s + rest) == trimmed_start(rest),
    decreases s.len(),
{
    let whole = s + rest;
    if s.len() == 0 {
        assert(whole =~= rest);
    } else {
        let later = s.skip(1);
        assert(is_white(s[0]));
        assert(whole[0] == s[0]);
        assert forall|i: int| 0 <= i < later.len() implies is_white(#[trigger] later[i]) by {
            assert(later[i] == s[i + 1]);
        }
        assert(whole.skip(1) =~= later + rest);
        lemma_start_of_white(later, rest);
    }
}

proof fn lemma_end_of_white(s: Seq<char>, rest: Seq<char>)
    requires
        forall|i: int| 0 <= i < rest.len() ==> is_white(#[trigger] rest[i]),
    ensures
        trimmed_end(s + rest) == trimmed_end(s),
    decreases rest.len(),
{
    let whole = s + rest;
    if rest.len() == 0 {
        assert(whole =~= s);
    } else {
        let fewer = rest.drop_last();
        assert(is_white(rest[rest.len() - 1]));
        assert(whole.last() == rest.last());
        assert forall|i: int| 0 <= i < fewer.len() implies is_white(#[trigger] fewer[i]) by {
            assert(fewer[i] == rest[i]);
        }
        assert(whole.drop_last() =~= s + fewer);
        lemma_end_of_white(s, fewer);
    }
}

/// More white space around a text is trimmed away too.
pub proof fn law_white_space_around(before: Seq<char>, s: Seq<char>, behind: Seq<char>)
    requires
        forall|i: int| 0 <= i < before.len() ==> is_white(#[trigger] before[i]),
        forall|i: int| 0 <= i < behind.len() ==> is_white(#[trigger] behind[i]),
    ensures
        trimmed(before + s + behind) == trimmed(s),
{
    assert(before + s + behind =~= before + (s + behind));
    lemma_start_of_white(before, s + behind);
    let from = lemma_trimmed_start_is(s);
    let head = s.take(from);
    let rest = s.skip(from);
    assert forall|i: int| 0 <= i < head.len() implies is_white(#[trigger] head[i]) by {
        assert(head[i] == s[i]);
    }
    assert(s + behind =~= head + (rest + behind));
    lemma_start_of_white(head, rest + behind);
    if rest.len() > 0 {
        assert(!is_white(s[from]));
        assert((rest + behind)[0] == s[from]);
        assert(trimmed_start(rest + behind) == rest + behind);
        lemma_end_of_white(rest, behind);
    } else {
        let none = Seq::<char>::empty();
        assert(rest + behind =~= behind + none);
        lemma_start_of_white(behind, none);
        assert(rest =~= none);
    }
}

} // verus!
