//! Replacing `$NAME` and `${NAME}` by the values of shell variables.
use vstd::prelude::*;

use crate::command::Command;
use crate::store;
use crate::store::TextMap;
use crate::text;
use crate::text::{chars_of, find_from, text_between};

verus! {

/// The characters of which a name consists.
pub open spec fn is_name_char(c: char) -> bool {
    'a' <= c <= 'z' || 'A' <= c <= 'Z' || '0' <= c <= '9' || c == '_'
}

/// How many characters of a name `s` begins with.
pub open spec fn name_len(s: Seq<char>) -> nat
    decreases s.len(),
{
    if s.len() == 0 || !is_name_char(s[0]) {
        0
    } else {
        1 + name_len(s.skip(1))
    }
}

/// The value of a variable; nothing when it is not declared.
pub open spec fn value_of(vars: Map<Seq<char>, Seq<char>>, name: Seq<char>) -> Seq<char> {
    if vars.contains_key(name) {
        vars[name]
    } else {
        Seq::empty()
    }
}

/// `s` with each reference replaced by the value of its variable.
///
/// A reference is `${`, any characters but `}`, and `}`; or `$` and as many characters of a
/// name as follow, at least one. Any other `$` stands for itself.
pub open spec fn expanded(s: Seq<char>, vars: Map<Seq<char>, Seq<char>>) -> Seq<char>
    decreases s.len(),
{
    if s.len() == 0 {
        Seq::empty()
    } else if s[0] != '$' {
        seq![s[0]] + expanded(s.skip(1), vars)
    } else {
        let after = s.skip(1);
        if after.len() > 0 && after[0] == '{' {
            let inner = after.skip(1);
            let close = text::find(inner, '}');
            if close < inner.len() {
                value_of(vars, inner.take(close as int)) + expanded(
                    inner.skip(close as int + 1),
                    vars,
                )
            } else {
                seq!['$'] + expanded(after, vars)
            }
        } else {
            let end = name_len(after);
            if end == 0 {
                seq!['$'] + expanded(after, vars)
            } else {
                proof {
                    lemma_name_len(after);
                }
                value_of(vars, after.take(end as int)) + expanded(after.skip(end as int), vars)
            }
        }
    }
}

/// A name reaches at most to the end, and consists of name characters.
pub proof fn lemma_name_len(s: Seq<char>)
    ensures
        name_len(s) <= s.len(),
        forall|i: int| 0 <= i < name_len(s) ==> is_name_char(#[trigger] s[i]),
        name_len(s) < s.len() ==> !is_name_char(s[name_len(s) as int]),
    decreases s.len(),
{
    if s.len() > 0 && is_name_char(s[0]) {
        let rest = s.skip(1);
        lemma_name_len(rest);
        assert forall|i: int| 0 <= i < name_len(s) implies is_name_char(#[trigger] s[i]) by {
            if i > 0 {
                assert(s[i] == rest[i - 1]);
            }
        }
    }
}

/// The name that `s` begins with ends where a character is none of a name.
pub proof fn lemma_name_len_is(s: Seq<char>, k: int)
    requires
        0 <= k <= s.len(),
        forall|i: int| 0 <= i < k ==> is_name_char(#[trigger] s[i]),
        k < s.len() ==> !is_name_char(s[k]),
    ensures
        name_len(s) == k,
{
    lemma_name_len(s);
    if name_len(s) < k {
        assert(is_name_char(s[name_len(s) as int]));
    } else if k < name_len(s) {
        assert(is_name_char(s[k]));
    }
}

/// Whether `c` can stand in a name.
fn name_char(c: char) -> (r: bool)
    ensures
        r == is_name_char(c),
{
    ('a' <= c && c <= 'z') || ('A' <= c && c <= 'Z') || ('0' <= c && c <= '9') || c == '_'
}

/// Where the name that begins at `from` ends.
fn name_end(chars: &Vec<char>, from: usize) -> (r: usize)
    requires
        from <= chars@.len(),
    ensures
        from <= r <= chars@.len(),
        r == from + name_len(chars@.skip(from as int)),
{
    let mut i: usize = from;
    while i < chars.len() && name_char(chars[i])
        invariant
            from <= i <= chars@.len(),
            forall|j: int| from <= j < i ==> is_name_char(#[trigger] chars@[j]),
        decreases chars@.len() - i,
    {
        i += 1;
    }
    proof {
        let rest = chars@.skip(from as int);
        assert forall|j: int| 0 <= j < i - from implies is_name_char(#[trigger] rest[j]) by {
            assert(rest[j] == chars@[from + j]);
        }
        lemma_name_len_is(rest, i - from);
    }
    i
}

/// Appends the value of a variable, if it is declared.
fn push_value(out: &mut String, vars: &TextMap<String>, name: &str)
    ensures
        final(out)@ == old(out)@ + value_of(store::text_values(vars@), name@),
{
    match vars.get(name) {
        Some(value) => {
            out.append(value.as_str());
        },
        None => {
            assert(out@ =~= old(out)@ + Seq::<char>::empty());
        },
    }
}

/// Whether `name` can name a variable: a letter or `_`, and then only characters of names.
pub open spec fn is_identifier(name: Seq<char>) -> bool {
    &&& name.len() > 0
    &&& !('0' <= name[0] <= '9')
    &&& forall|i: int| 0 <= i < name.len() ==> is_name_char(#[trigger] name[i])
}

impl Command {
    /// `tok` with each reference replaced by the value of its variable.
    pub fn expand_param(tok: &str, vars: &TextMap<String>) -> (r: String)
        ensures
            r@ == expanded(tok@, store::text_values(vars@)),
    {
        let chars: Vec<char> = chars_of(tok);
        let ghost values = store::text_values(vars@);
        let mut out = String::new();
        let mut i: usize = 0;
        proof {
            assert(chars@.skip(0) =~= tok@);
            assert(out@ + expanded(tok@, values) =~= expanded(tok@, values));
        }
        while i < chars.len()
            invariant
                i <= chars@.len(),
                values == store::text_values(vars@),
                expanded(tok@, values) == out@ + expanded(chars@.skip(i as int), values),
            decreases chars@.len() - i,
        {
            let ghost rest = chars@.skip(i as int);
            let ghost before = out@;
            let ghost after = chars@.skip(i + 1);
            assert(rest[0] == chars@[i as int]);
            assert(rest.skip(1) =~= after);
            if chars[i] != '$' {
                out.push(chars[i]);
                i += 1;
                assert(out@ + expanded(after, values) =~= before + (seq![rest[0]] + expanded(after, values)));
            } else {
                i += 1;
                if i < chars.len() && chars[i] == '{' {
                    assert(after[0] == '{');
                    let ghost inner = after.skip(1);
                    assert(inner =~= chars@.skip(i + 1));
                    let close: usize = find_from(&chars, i + 1, '}');
                    if close < chars.len() {
                        let name: String = text_between(&chars, i + 1, close);
                        push_value(&mut out, vars, name.as_str());
                        proof {
                            let k = close - (i + 1);
                            assert(name@ =~= inner.take(k));
                            assert(inner.skip(k + 1) =~= chars@.skip(close + 1));
                            let later = expanded(inner.skip(k + 1), values);
                            assert(out@ + later =~= before + (value_of(values, inner.take(k)) + later));
                        }
                        i = close + 1;
                    } else {
                        out.push('$');
                        assert(out@ + expanded(after, values) =~= before + (seq!['$'] + expanded(after, values)));
                    }
                } else {
                    assert(after.len() > 0 ==> after[0] != '{');
                    let end: usize = name_end(&chars, i);
                    if end == i {
                        out.push('$');
                        assert(out@ + expanded(after, values) =~= before + (seq!['$'] + expanded(after, values)));
                    } else {
                        let name: String = text_between(&chars, i, end);
                        push_value(&mut out, vars, name.as_str());
                        proof {
                            let k = end - i;
                            assert(name@ =~= after.take(k));
                            assert(after.skip(k) =~= chars@.skip(end as int));
                            let later = expanded(after.skip(k), values);
                            assert(out@ + later =~= before + (value_of(values, after.take(k)) + later));
                        }
                        i = end;
                    }
                }
            }
        }
        assert(out@ + Seq::<char>::empty() =~= out@);
        out
    }

    /// Whether `name` can name a variable.
    pub fn valid_identifier(name: &str) -> (r: bool)
        ensures
            r == is_identifier(name@),
    {
        let chars: Vec<char> = chars_of(name);
        if chars.len() == 0 || ('0' <= chars[0] && chars[0] <= '9') {
            return false;
        }
        let end: usize = name_end(&chars, 0);
        proof {
            assert(chars@.skip(0) =~= name@);
            lemma_name_len(name@);
        }
        end == chars.len()
    }
}

/// Text without `$` in front of a text stays as it is.
pub proof fn law_text_before_stays(
    before: Seq<char>,
    s: Seq<char>,
    vars: Map<Seq<char>, Seq<char>>,
)
    requires
        !before.contains('$'),
    ensures
        expanded(before + s, vars) == before + expanded(s, vars),
    decreases before.len(),
{
    let whole = before + s;
    if before.len() == 0 {
        assert(whole =~= s);
        assert(before + expanded(s, vars) =~= expanded(s, vars));
    } else {
        let rest = before.skip(1);
        assert(before[0] != '$');
        assert forall|i: int| 0 <= i < rest.len() implies rest[i] != '$' by {
            assert(rest[i] == before[i + 1]);
        }
        assert(whole.skip(1) =~= rest + s);
        law_text_before_stays(rest, s, vars);
        assert(seq![before[0]] + (rest + expanded(s, vars)) =~= before + expanded(s, vars));
    }
}

/// Text without `$` stays as it is.
pub proof fn law_no_reference(s: Seq<char>, vars: Map<Seq<char>, Seq<char>>)
    requires
        !s.contains('$'),
    ensures
        expanded(s, vars) == s,
{
    law_text_before_stays(s, Seq::empty(), vars);
    assert(s + Seq::<char>::empty() =~= s);
    assert(s + expanded(Seq::empty(), vars) =~= s);
}

/// `${NAME}` is replaced by the value of the variable, and the value is not expanded again.
pub proof fn law_braced_reference(
    name: Seq<char>,
    rest: Seq<char>,
    vars: Map<Seq<char>, Seq<char>>,
)
    requires
        !name.contains('}'),
    ensures
        expanded(seq!['$', '{'] + name + seq!['}'] + rest, vars) == value_of(vars, name)
            + expanded(rest, vars),
{
    let whole = seq!['$', '{'] + name + seq!['}'] + rest;
    let inner = whole.skip(1).skip(1);
    assert(whole[0] == '$');
    assert(whole.skip(1)[0] == '{');
    assert(inner =~= name + seq!['}'] + rest);
    text::lemma_find_is(inner, '}', name.len() as int);
    assert(inner.take(name.len() as int) =~= name);
    assert(inner.skip(name.len() as int + 1) =~= rest);
}

/// `$NAME` is replaced by the value of the variable, and the value is not expanded again; the
/// name reaches as far as there are characters of a name.
pub proof fn law_plain_reference(
    name: Seq<char>,
    rest: Seq<char>,
    vars: Map<Seq<char>, Seq<char>>,
)
    requires
        name.len() > 0,
        forall|i: int| 0 <= i < name.len() ==> is_name_char(#[trigger] name[i]),
        rest.len() > 0 ==> !is_name_char(rest[0]),
    ensures
        expanded(seq!['$'] + name + rest, vars) == value_of(vars, name) + expanded(rest, vars),
{
    let whole = seq!['$'] + name + rest;
    let after = whole.skip(1);
    assert(after =~= name + rest);
    assert(is_name_char(name[0]));
    assert(after[0] == name[0]);
    assert forall|i: int| 0 <= i < name.len() implies is_name_char(#[trigger] after[i]) by {
        assert(after[i] == name[i]);
    }
    lemma_name_len_is(after, name.len() as int);
    assert(after.take(name.len() as int) =~= name);
    assert(after.skip(name.len() as int) =~= rest);
}

/// A variable that has been given a value is replaced by it, in either form, and so is any
/// other by the value that it had.
pub proof fn law_assigned_value_is_expanded(
    vars: Map<Seq<char>, Seq<char>>,
    name: Seq<char>,
    value: Seq<char>,
)
    requires
        is_identifier(name),
    ensures
        expanded(seq!['$'] + name, vars.insert(name, value)) == value,
        expanded(seq!['$', '{'] + name + seq!['}'], vars.insert(name, value)) == value,
        forall|other: Seq<char>|
            other != name ==> #[trigger] value_of(vars.insert(name, value), other) == value_of(
                vars,
                other,
            ),
{
    let after = vars.insert(name, value);
    let none = Seq::<char>::empty();
    assert(seq!['$'] + name + none =~= seq!['$'] + name);
    assert(seq!['$', '{'] + name + seq!['}'] + none =~= seq!['$', '{'] + name + seq!['}']);
    assert(!name.contains('}')) by {
        if name.contains('}') {
            let i = choose|i: int| 0 <= i < name.len() && name[i] == '}';
            assert(is_name_char(name[i]));
        }
    }
    law_plain_reference(name, none, after);
    law_braced_reference(name, none, after);
    assert(value + expanded(none, after) =~= value);
}

/// The characters of a name are the ASCII letters and digits and `_`.
pub proof fn law_characters_of_names(c: char)
    ensures
        is_name_char(c) <==> ('a' <= c && c <= 'z') || ('A' <= c && c <= 'Z') || ('0' <= c && c
            <= '9') || c == '_',
{
}

/// A name of a variable begins with a letter or `_`, and goes on with letters, digits and `_`: a
/// name stays one with any of these behind it, and with any other character it is none.
pub proof fn law_names_of_variables(name: Seq<char>, c: char)
    ensures
        !is_identifier(Seq::empty()),
        is_identifier(seq![c]) <==> ('a' <= c && c <= 'z') || ('A' <= c && c <= 'Z') || c == '_',
        name.len() > 0 ==> (is_identifier(name.push(c)) <==> is_identifier(name) && (('a' <= c && c
            <= 'z') || ('A' <= c && c <= 'Z') || ('0' <= c && c <= '9') || c == '_')),
{
    let one = seq![c];
    assert(one[0] == c);
    if name.len() > 0 {
        let more = name.push(c);
        assert(more[0] == name[0]);
        assert(more[name.len() as int] == c);
        assert(forall|i: int| 0 <= i < name.len() ==> more[i] == name[i]);
        if is_identifier(more) {
            assert forall|i: int| 0 <= i < name.len() implies is_name_char(#[trigger] name[i]) by {
                assert(is_name_char(more[i]));
            }
            assert(is_name_char(more[name.len() as int]));
        }
    }
}

/// A `$` with neither a name nor a brace behind it stands for itself.
pub proof fn law_lone_dollar(rest: Seq<char>, vars: Map<Seq<char>, Seq<char>>)
    requires
        rest.len() > 0 ==> rest[0] != '{' && !is_name_char(rest[0]),
    ensures
        expanded(seq!['$'] + rest, vars) == seq!['$'] + expanded(rest, vars),
{
    let whole = seq!['$'] + rest;
    assert(whole.skip(1) =~= rest);
}

/// `${` without a `}` behind it stands for itself.
pub proof fn law_open_brace(rest: Seq<char>, vars: Map<Seq<char>, Seq<char>>)
    requires
        !rest.contains('}'),
    ensures
        expanded(seq!['$', '{'] + rest, vars) == seq!['$', '{'] + expanded(rest, vars),
{
    let whole = seq!['$', '{'] + rest;
    let after = whole.skip(1);
    assert(after =~= seq!['{'] + rest);
    assert(after.skip(1) =~= rest);
    text::lemma_find(rest, '}');
    assert(expanded(after, vars) == seq!['{'] + expanded(rest, vars));
    assert(seq!['$'] + (seq!['{'] + expanded(rest, vars)) =~= seq!['$', '{'] + expanded(
        rest,
        vars,
    ));
}

/// A variable that is not declared stands for nothing.
pub proof fn law_undeclared_is_empty(
    name: Seq<char>,
    rest: Seq<char>,
    vars: Map<Seq<char>, Seq<char>>,
)
    requires
        is_identifier(name),
        !vars.contains_key(name),
    ensures
        expanded(seq!['$', '{'] + name + seq!['}'] + rest, vars) == expanded(rest, vars),
        rest.len() > 0 && !is_name_char(rest[0]) ==> expanded(seq!['$'] + name + rest, vars)
            == expanded(rest, vars),
{
    assert(!name.contains('}')) by {
        if name.contains('}') {
            let i = choose|i: int| 0 <= i < name.len() && name[i] == '}';
            assert(is_name_char(name[i]));
        }
    }
    law_braced_reference(name, rest, vars);
    assert(Seq::<char>::empty() + expanded(rest, vars) =~= expanded(rest, vars));
    if rest.len() > 0 && !is_name_char(rest[0]) {
        law_plain_reference(name, rest, vars);
    }
}

/// What follows a reference is expanded on its own, and what the variable holds is put in as it
/// is.
pub proof fn law_declared_value_is_put_in(
    name: Seq<char>,
    rest: Seq<char>,
    vars: Map<Seq<char>, Seq<char>>,
)
    requires
        is_identifier(name),
        vars.contains_key(name),
    ensures
        expanded(seq!['$', '{'] + name + seq!['}'] + rest, vars) == vars[name] + expanded(
            rest,
            vars,
        ),
        rest.len() > 0 && !is_name_char(rest[0]) ==> expanded(seq!['$'] + name + rest, vars)
            == vars[name] + expanded(rest, vars),
{
    assert(!name.contains('}')) by {
        if name.contains('}') {
            let i = choose|i: int| 0 <= i < name.len() && name[i] == '}';
            assert(is_name_char(name[i]));
        }
    }
    law_braced_reference(name, rest, vars);
    if rest.len() > 0 && !is_name_char(rest[0]) {
        law_plain_reference(name, rest, vars);
    }
}

} // verus!
