//! The arguments that a request's headers carry: lists of templates, cut at
//! commas, expanded, and split into words as a shell splits a command line.

use vstd::prelude::*;
use crate::pieces::{pieces, rows, split_chars};
use crate::template::{chars_of, expanded, replace_variable, text_of, texts, Vars};

verus! {

/// The character that cuts a header value into templates.
pub const COMMA_CHAR: char = ',';

/// The character that sets a variable's name off from its value.
pub const EQUALS: char = '=';

/// The words into which a POSIX shell splits `text`, without any expansion
/// but the removal of quotes; `None` for a text in which a quote is not
/// closed.
pub uninterp spec fn shell_words(text: Seq<char>) -> Option<Seq<Seq<char>>>;

/// `shell_words::split`: the words of `text` as a shell would split them,
/// and no words where a quote is left open. The outcome is a function of
/// the text alone. That is taken from `shell_words` as it is written, and
/// not proved here.
#[verifier::external_body]
fn shell_split(text: &str) -> (r: Option<Vec<String>>)
    ensures
        match r {
            Some(words) => shell_words(text@) == Some(words.deep_view()),
            None => shell_words(text@) is None,
        },
{
    ::shell_words::split(text).ok()
}

/// The templates of a list of header values: each value cut at its commas,
/// in the order of the values.
pub open spec fn templates(values: Seq<Seq<char>>) -> Seq<Seq<char>>
    decreases values.len(),
{
    if values.len() == 0 {
        Seq::empty()
    } else {
        templates(values.drop_last()) + pieces(values.last(), COMMA_CHAR)
    }
}

/// The words of a list of templates: each template expanded and then split
/// as a shell splits, in order; `None` where one of them cannot be split.
pub open spec fn words_of(list: Seq<Seq<char>>, vars: Map<Seq<char>, Seq<char>>) -> Option<
    Seq<Seq<char>>,
>
    decreases list.len(),
{
    if list.len() == 0 {
        Some(Seq::empty())
    } else {
        match (words_of(list.drop_last(), vars), shell_words(expanded(vars, list.last()))) {
            (Some(before), Some(words)) => Some(before + words),
            _ => None,
        }
    }
}

/// The arguments that the header values `values` carry.
pub open spec fn header_args(values: Seq<Seq<char>>, vars: Map<Seq<char>, Seq<char>>) -> Option<
    Seq<Seq<char>>,
> {
    words_of(templates(values), vars)
}

/// The words of more templates are the words of the first and then those of
/// the others.
proof fn lemma_words_of_concat(
    first: Seq<Seq<char>>,
    second: Seq<Seq<char>>,
    vars: Map<Seq<char>, Seq<char>>,
)
    ensures
        words_of(first + second, vars) == match (words_of(first, vars), words_of(second, vars)) {
            (Some(a), Some(b)) => Some(a + b),
            _ => None,
        },
    decreases second.len(),
{
    if second.len() == 0 {
        assert(first + second =~= first);
        match words_of(first, vars) {
            Some(a) => {
                assert(a + Seq::<Seq<char>>::empty() =~= a);
            },
            None => {},
        }
    } else {
        let all = first + second;
        assert(all.drop_last() =~= first + second.drop_last());
        assert(all.last() == second.last());
        lemma_words_of_concat(first, second.drop_last(), vars);
        match (
            words_of(first, vars),
            words_of(second.drop_last(), vars),
            shell_words(expanded(vars, second.last())),
        ) {
            (Some(a), Some(b), Some(c)) => {
                assert((a + b) + c =~= a + (b + c));
            },
            _ => {},
        }
    }
}

/// Reads the arguments that a list of header values carries: cuts each
/// value at its commas, expands each piece as a template, and splits the
/// outcome into words as a shell does. `None` where a piece, once expanded,
/// leaves a quote open.
#[verifier::loop_isolation(false)]
pub fn parse_header_args(values: &Vec<String>, vars: &Vars) -> (r: Option<Vec<String>>)
    requires
        vars.wf(),
    ensures
        match r {
            Some(words) => header_args(values.deep_view(), texts(vars@)) == Some(
                words.deep_view(),
            ),
            None => header_args(values.deep_view(), texts(vars@)) is None,
        },
{
    let ghost all = values.deep_view();
    let ghost map = texts(vars@);
    let mut words: Vec<String> = Vec::new();
    let mut i: usize = 0;
    proof {
        assert(all.take(0) =~= Seq::<Seq<char>>::empty());
        assert(words.deep_view() =~= Seq::<Seq<char>>::empty());
    }
    while i < values.len()
        invariant
            i <= values.len(),
            vars.wf(),
            all == values.deep_view(),
            map == texts(vars@),
            header_args(all.take(i as int), map) == Some(words.deep_view()),
        decreases values.len() - i,
    {
        let chars = chars_of(values[i].as_str());
        let cut = split_chars(&chars, COMMA_CHAR);
        let ghost list = rows(cut@);
        let ghost held = words.deep_view();
        proof {
            assert(all.take(i + 1).drop_last() =~= all.take(i as int));
            assert(all.take(i + 1).last() == chars@);
            lemma_words_of_concat(templates(all.take(i as int)), list, map);
            assert(list.take(0) =~= Seq::<Seq<char>>::empty());
            assert(held + Seq::<Seq<char>>::empty() =~= held);
        }
        let mut j: usize = 0;
        while j < cut.len()
            invariant
                j <= cut.len(),
                vars.wf(),
                map == texts(vars@),
                list == rows(cut@),
                match words_of(list.take(j as int), map) {
                    Some(so_far) => words.deep_view() == held + so_far,
                    None => false,
                },
            decreases cut.len() - j,
        {
            let template = text_of(&cut[j], 0, cut[j].len());
            proof {
                assert(cut[j as int]@.subrange(0, cut[j as int]@.len() as int) =~= cut[j as int]@);
                assert(list.take(j + 1).drop_last() =~= list.take(j as int));
                assert(list.take(j + 1).last() == template@);
                lemma_words_stay_none(list, j + 1, map);
                assert(list.take(list.len() as int) =~= list);
            }
            let text = replace_variable(vars, template.as_str());
            let mut more = match shell_split(text.as_str()) {
                Some(more) => more,
                None => {
                    proof {
                        lemma_args_stay_none(all, i + 1, map);
                        assert(all.take(all.len() as int) =~= all);
                    }
                    return None;
                },
            };
            let ghost before = words.deep_view();
            let ghost added = more.deep_view();
            words.append(&mut more);
            proof {
                assert(words.deep_view() =~= before + added);
                let so_far = words_of(list.take(j as int), map)->0;
                assert((held + so_far) + added =~= held + (so_far + added));
            }
            j += 1;
        }
        proof {
            assert(list.take(cut.len() as int) =~= list);
        }
        i += 1;
    }
    proof {
        assert(all.take(values.len() as int) =~= all);
    }
    Some(words)
}

/// Templates of which the first `n` cannot be split cannot be split.
proof fn lemma_words_stay_none(list: Seq<Seq<char>>, n: int, vars: Map<Seq<char>, Seq<char>>)
    requires
        0 <= n <= list.len(),
    ensures
        words_of(list.take(n), vars) is None ==> words_of(list, vars) is None,
{
    assert(list =~= list.take(n) + list.skip(n));
    lemma_words_of_concat(list.take(n), list.skip(n), vars);
}

/// Header values of which the first `n` carry no arguments carry none.
proof fn lemma_args_stay_none(values: Seq<Seq<char>>, n: int, vars: Map<Seq<char>, Seq<char>>)
    requires
        0 <= n <= values.len(),
    ensures
        header_args(values.take(n), vars) is None ==> header_args(values, vars) is None,
    decreases values.len() - n,
{
    if n < values.len() {
        assert(values.take(n + 1).drop_last() =~= values.take(n));
        lemma_words_of_concat(
            templates(values.take(n)),
            pieces(values.take(n + 1).last(), COMMA_CHAR),
            vars,
        );
        lemma_args_stay_none(values, n + 1, vars);
    } else {
        assert(values.take(n) =~= values);
    }
}

/// Where the first `=` of `word` stands, if it holds one.
pub open spec fn first_equals(word: Seq<char>) -> Option<int>
    decreases word.len(),
{
    if word.len() == 0 {
        None
    } else {
        match first_equals(word.drop_last()) {
            Some(i) => Some(i),
            None => if word.last() == EQUALS {
                Some(word.len() - 1)
            } else {
                None
            },
        }
    }
}

/// The name and the value that a word of the form `name=value` assigns: what
/// stands before its first `=` and what stands behind it.
pub open spec fn assignment(word: Seq<char>) -> Option<(Seq<char>, Seq<char>)> {
    match first_equals(word) {
        Some(i) => Some((word.take(i), word.skip(i + 1))),
        None => None,
    }
}

/// `first_equals` is the first position that holds a `=`.
pub proof fn lemma_first_equals(word: Seq<char>)
    ensures
        match first_equals(word) {
            Some(i) => 0 <= i < word.len() && word[i] == EQUALS && forall|j: int|
                0 <= j < i ==> word[j] != EQUALS,
            None => forall|j: int| 0 <= j < word.len() ==> word[j] != EQUALS,
        },
    decreases word.len(),
{
    if word.len() > 0 {
        let front = word.drop_last();
        lemma_first_equals(front);
        assert forall|j: int| 0 <= j < front.len() implies front[j] == word[j] by {}
    }
}

/// Cuts a word of the form `name=value` at its first `=`.
pub fn split_assignment(word: &str) -> (r: Option<(String, String)>)
    ensures
        match r {
            Some(pair) => assignment(word@) == Some((pair.0@, pair.1@)),
            None => assignment(word@) is None,
        },
{
    let chars = chars_of(word);
    let mut i: usize = 0;
    proof {
        lemma_first_equals(chars@);
    }
    while i < chars.len()
        invariant
            i <= chars.len(),
            chars@ == word@,
            forall|j: int| 0 <= j < i ==> chars@[j] != EQUALS,
        decreases chars.len() - i,
    {
        if chars[i] == EQUALS {
            let name = text_of(&chars, 0, i);
            let value = text_of(&chars, i + 1, chars.len());
            proof {
                lemma_first_equals(chars@);
                assert(chars@[i as int] == EQUALS);
                match first_equals(chars@) {
                    Some(k) => {
                        if k < i {
                            assert(chars@[k] != EQUALS);
                        }
                    },
                    None => {},
                }
                assert(first_equals(chars@) == Some(i as int));
                assert(chars@.subrange(0, i as int) =~= chars@.take(i as int));
                assert(chars@.subrange(i + 1, chars.len() as int) =~= chars@.skip(i + 1));
            }
            return Some((name, value));
        }
        i += 1;
    }
    proof {
        lemma_first_equals(chars@);
    }
    None
}

} // verus!
