//! The environment-file serializer: renders resolved parameters into
//! `NAME='VALUE'` lines and proves the rendering invertible.

use vstd::prelude::*;

use crate::params::ResolvedParameter;

verus! {

/// One rendered entry without its terminating newline: `NAME='VALUE'`. The
/// name is written verbatim; the value is wrapped in single quotes verbatim,
/// with no escaping.
pub open spec fn line_body(name: Seq<char>, value: Seq<char>) -> Seq<char> {
    name + seq!['=', '\''] + value + seq!['\'']
}

/// One rendered entry: `NAME='VALUE'` followed by a single newline.
pub open spec fn rendered_line(name: Seq<char>, value: Seq<char>) -> Seq<char> {
    line_body(name, value) + seq!['\n']
}

/// The whole environment file: one line per parameter, in input order, with
/// nothing besides the lines. An empty input renders to an empty file.
pub open spec fn rendered_file(params: Seq<ResolvedParameter>) -> Seq<char>
    decreases params.len(),
{
    if params.len() == 0 {
        Seq::empty()
    } else {
        rendered_line(params[0].name@, params[0].value@) + rendered_file(params.skip(1))
    }
}

/// Index of the first occurrence of `c` in `s`, or `s.len()` if `s` does not
/// contain `c`.
pub open spec fn first_index_of(s: Seq<char>, c: char) -> int
    decreases s.len(),
{
    if s.len() == 0 {
        0
    } else if s[0] == c {
        0
    } else {
        1 + first_index_of(s.skip(1), c)
    }
}

/// Index of the first occurrence of the two-character separator `='` in `s`,
/// or `s.len()` if there is none.
pub open spec fn separator_index(s: Seq<char>) -> int
    decreases s.len(),
{
    if s.len() < 2 {
        s.len() as int
    } else if s[0] == '=' && s[1] == '\'' {
        0
    } else {
        1 + separator_index(s.skip(1))
    }
}

/// Parses one line of the form `NAME='VALUE'` (without its newline): the name
/// is everything before the first `='`, the value everything between that
/// separator and the line's final character, which must be a single quote.
pub open spec fn parse_line(line: Seq<char>) -> Option<(Seq<char>, Seq<char>)> {
    let i = separator_index(line);
    if 0 <= i && i + 3 <= line.len() && line[line.len() - 1] == '\'' {
        Some((line.take(i), line.subrange(i + 2, line.len() - 1)))
    } else {
        None
    }
}

/// Parses a whole environment file: a concatenation of newline-terminated
/// `NAME='VALUE'` lines. Returns the pairs in file order, or `None` where the
/// text is not of that shape.
pub open spec fn parse_env_file(text: Seq<char>) -> Option<Seq<(Seq<char>, Seq<char>)>>
    decreases text.len(),
{
    if text.len() == 0 {
        Some(Seq::empty())
    } else {
        let j = first_index_of(text, '\n');
        if 0 <= j < text.len() {
            match (parse_line(text.take(j)), parse_env_file(text.skip(j + 1))) {
                (Some(pair), Some(rest)) => Some(seq![pair] + rest),
                _ => None,
            }
        } else {
            None
        }
    }
}

/// The name/value pairs of the parameters, in order: what parsing the
/// rendered file is to recover.
pub open spec fn pairs_of(params: Seq<ResolvedParameter>) -> Seq<(Seq<char>, Seq<char>)> {
    params.map_values(|p: ResolvedParameter| (p.name@, p.value@))
}

/// Rendering one more parameter appends exactly its line to the rendered
/// file.
proof fn lemma_rendered_file_push(params: Seq<ResolvedParameter>, p: ResolvedParameter)
    ensures
        rendered_file(params.push(p)) == rendered_file(params) + rendered_line(p.name@, p.value@),
    decreases params.len(),
{
    if params.len() == 0 {
        assert(params.push(p)[0] == p);
        assert(params.push(p).skip(1) =~= Seq::<ResolvedParameter>::empty());
        assert(rendered_file(params.push(p).skip(1)) == Seq::<char>::empty());
        assert(rendered_file(params.push(p)) == rendered_line(p.name@, p.value@) + rendered_file(
            params.push(p).skip(1),
        ));
        assert(rendered_file(params) == Seq::<char>::empty());
        assert(rendered_file(params.push(p)) =~= rendered_file(params) + rendered_line(
            p.name@,
            p.value@,
        ));
    } else {
        assert(params.push(p)[0] == params[0]);
        assert(params.push(p).skip(1) =~= params.skip(1).push(p));
        lemma_rendered_file_push(params.skip(1), p);
        assert(rendered_file(params.push(p)) =~= rendered_file(params) + rendered_line(
            p.name@,
            p.value@,
        ));
    }
}

/// In a concatenation whose first part does not contain `c`, the first
/// occurrence of `c` is the first occurrence in the second part.
proof fn lemma_first_index_of_append(s: Seq<char>, t: Seq<char>, c: char)
    requires
        !s.contains(c),
    ensures
        first_index_of(s + t, c) == s.len() + first_index_of(t, c),
    decreases s.len(),
{
    if s.len() == 0 {
        assert(s + t =~= t);
    } else {
        assert(s[0] != c) by {
            if s[0] == c {
                assert(s.contains(c));
            }
        }
        assert((s + t)[0] == s[0]);
        assert((s + t).skip(1) =~= s.skip(1) + t);
        assert(!s.skip(1).contains(c)) by {
            if s.skip(1).contains(c) {
                let k = choose|k: int| 0 <= k < s.skip(1).len() && s.skip(1)[k] == c;
                assert(s[k + 1] == c);
                assert(s.contains(c));
            }
        }
        lemma_first_index_of_append(s.skip(1), t, c);
    }
}

/// In `name` followed by the separator `='` and anything after it, the first
/// occurrence of the separator sits exactly at the end of `name`, provided
/// the name contains no single quote.
proof fn lemma_separator_index_append(name: Seq<char>, rest: Seq<char>)
    requires
        !name.contains('\''),
    ensures
        separator_index(name + seq!['=', '\''] + rest) == name.len(),
    decreases name.len(),
{
    let s = name + seq!['=', '\''] + rest;
    assert(s.len() == name.len() + 2 + rest.len());
    if name.len() == 0 {
        assert(s[0] == '=' && s[1] == '\'');
    } else {
        assert(s[0] == name[0]);
        if name.len() == 1 {
            assert(s[1] == '=');
        } else {
            assert(s[1] == name[1]);
            assert(name[1] != '\'') by {
                if name[1] == '\'' {
                    assert(name.contains('\''));
                }
            }
        }
        assert(!(s[0] == '=' && s[1] == '\''));
        assert(s.skip(1) =~= name.skip(1) + seq!['=', '\''] + rest);
        assert(!name.skip(1).contains('\'')) by {
            if name.skip(1).contains('\'') {
                let k = choose|k: int| 0 <= k < name.skip(1).len() && name.skip(1)[k] == '\'';
                assert(name[k + 1] == '\'');
                assert(name.contains('\''));
            }
        }
        lemma_separator_index_append(name.skip(1), rest);
    }
}

/// Parsing one rendered line body recovers the name and the value exactly,
/// provided the name contains no single quote.
proof fn lemma_parse_line_round_trip(name: Seq<char>, value: Seq<char>)
    requires
        !name.contains('\''),
    ensures
        parse_line(line_body(name, value)) == Some((name, value)),
{
    let line = line_body(name, value);
    assert(line =~= name + seq!['=', '\''] + (value + seq!['\'']));
    lemma_separator_index_append(name, value + seq!['\'']);
    let i = separator_index(line);
    assert(i == name.len());
    assert(line.len() == name.len() + 3 + value.len());
    assert(line[line.len() - 1] == '\'');
    assert(line.take(i) =~= name);
    assert(line.subrange(i + 2, line.len() - 1) =~= value);
}

/// A rendered line body contains no newline, provided neither the name nor
/// the value does.
proof fn lemma_line_body_no_newline(name: Seq<char>, value: Seq<char>)
    requires
        !name.contains('\n'),
        !value.contains('\n'),
    ensures
        !line_body(name, value).contains('\n'),
{
    let body = line_body(name, value);
    assert(!body.contains('\n')) by {
        if body.contains('\n') {
            let k = choose|k: int| 0 <= k < body.len() && body[k] == '\n';
            if k < name.len() {
                assert(name[k] == '\n');
                assert(name.contains('\n'));
            } else if k < name.len() + 2 {
                assert(body[k] == '=' || body[k] == '\'');
            } else if k < name.len() + 2 + value.len() {
                assert(value[k - name.len() - 2] == '\n');
                assert(value.contains('\n'));
            } else {
                assert(body[k] == '\'');
            }
        }
    }
}

/// Serializing resolved parameters and then parsing the output as
/// newline-terminated `NAME='VALUE'` lines recovers exactly the original
/// name/value pairs, in the original order. This holds whenever no name
/// contains a single quote and no name or value contains a newline.
pub proof fn lemma_render_parse_round_trip(params: Seq<ResolvedParameter>)
    requires
        forall|k: int| 0 <= k < params.len() ==> !(#[trigger] params[k]).name@.contains('\''),
        forall|k: int| 0 <= k < params.len() ==> !(#[trigger] params[k]).name@.contains('\n'),
        forall|k: int| 0 <= k < params.len() ==> !(#[trigger] params[k]).value@.contains('\n'),
    ensures
        parse_env_file(rendered_file(params)) == Some(pairs_of(params)),
    decreases params.len(),
{
    if params.len() == 0 {
        assert(pairs_of(params) =~= Seq::<(Seq<char>, Seq<char>)>::empty());
    } else {
        let p = params[0];
        let body = line_body(p.name@, p.value@);
        let rest = rendered_file(params.skip(1));
        let text = rendered_file(params);
        assert(text == rendered_line(p.name@, p.value@) + rest);
        assert(text =~= body + (seq!['\n'] + rest));
        lemma_line_body_no_newline(p.name@, p.value@);
        lemma_first_index_of_append(body, seq!['\n'] + rest, '\n');
        assert(first_index_of(seq!['\n'] + rest, '\n') == 0) by {
            assert((seq!['\n'] + rest)[0] == '\n');
        }
        let j = first_index_of(text, '\n');
        assert(j == body.len());
        assert(text.len() == body.len() + 1 + rest.len());
        assert(text.take(j) =~= body);
        assert(text.skip(j + 1) =~= rest);
        lemma_parse_line_round_trip(p.name@, p.value@);
        assert(forall|k: int|
            0 <= k < params.skip(1).len() ==> (#[trigger] params.skip(1)[k]) == params[k + 1]);
        lemma_render_parse_round_trip(params.skip(1));
        assert(parse_env_file(text) == Some(seq![(p.name@, p.value@)] + pairs_of(params.skip(1))));
        assert(seq![(p.name@, p.value@)] + pairs_of(params.skip(1)) =~= pairs_of(params)) by {
            assert(pairs_of(params).len() == params.len());
            assert(forall|k: int|
                0 <= k < params.len() ==> #[trigger] pairs_of(params)[k] == (
                    params[k].name@,
                    params[k].value@,
                ));
        }
    }
}

/// Renders the resolved parameters into the environment-file text: one
/// `NAME='VALUE'` line per parameter, in input order, each terminated by a
/// single newline. An empty input renders to the empty string, so the file
/// written from it has zero bytes.
pub fn render_environment_file(parameters: &Vec<ResolvedParameter>) -> (text: String)
    ensures
        text@ == rendered_file(parameters@),
        parameters@.len() == 0 ==> text@.len() == 0,
{
    let mut text = String::new();
    let mut i: usize = 0;
    while i < parameters.len()
        invariant
            i <= parameters@.len(),
            text@ == rendered_file(parameters@.take(i as int)),
        decreases parameters@.len() - i,
    {
        let ghost text_at_entry = text@;
        text.append(parameters[i].name.as_str());
        text.append("='");
        text.append(parameters[i].value.as_str());
        text.append("'\n");
        proof {
            reveal_strlit("='");
            reveal_strlit("'\n");
            assert(text@ =~= text_at_entry + rendered_line(
                parameters@[i as int].name@,
                parameters@[i as int].value@,
            ));
            lemma_rendered_file_push(parameters@.take(i as int), parameters@[i as int]);
            assert(parameters@.take(i as int).push(parameters@[i as int]) =~= parameters@.take(
                i as int + 1,
            ));
        }
        i = i + 1;
    }
    proof {
        assert(parameters@.take(parameters@.len() as int) =~= parameters@);
    }
    text
}

} // verus!
