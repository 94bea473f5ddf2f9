//! The template language of the command proxy: `$name` and `${name}` stand
//! for a variable, `${name(text)}` for a function applied to a text.

use vstd::prelude::*;
use vstd::string::StringExecFns;
use crate::command::{base64, base64_text};
use crate::table::{distinct_keys, has_key, index_of, pairs_map, put, Table};
use crate::text::push_char;

verus! {

/// The variables of a request, by name.
pub type Vars = Table<String, String>;

/// What a map of variables holds, each value by its text.
pub open spec fn texts(map: Map<Seq<char>, String>) -> Map<Seq<char>, Seq<char>> {
    map.map_values(|v: String| v@)
}

/// A list of variables, each a name with its value, in which no name
/// occurs twice.
pub type Listing = Seq<(Seq<char>, Seq<char>)>;

/// The variables of `vars` in the order in which their names were first
/// given, each by its texts.
pub open spec fn listing(vars: &Vars) -> Listing {
    vars.entries().map_values(|pair: (String, String)| (pair.0@, pair.1@))
}

/// Whether a list holds a variable of this name.
pub open spec fn names(list: Listing, name: Seq<char>) -> bool {
    exists|i: int| 0 <= i < list.len() && (#[trigger] list[i]).0 == name
}

/// A position at which the variable of this name stands.
pub open spec fn place(list: Listing, name: Seq<char>) -> int {
    choose|i: int| 0 <= i < list.len() && (#[trigger] list[i]).0 == name
}

/// The list after `name` is given `value`: in its place where the list
/// holds the name, behind all others where it does not.
pub open spec fn assign(list: Listing, name: Seq<char>, value: Seq<char>) -> Listing {
    if names(list, name) {
        list.update(place(list, name), (name, value))
    } else {
        list.push((name, value))
    }
}

/// The values of a list of variables by name; of a name that occurs twice,
/// the later value.
pub open spec fn as_map(list: Listing) -> Map<Seq<char>, Seq<char>>
    decreases list.len(),
{
    if list.len() == 0 {
        Map::empty()
    } else {
        as_map(list.drop_last()).insert(list.last().0, list.last().1)
    }
}

/// The map of the variables is the map of their listing.
pub proof fn lemma_listing_map(pairs: Seq<(String, String)>)
    ensures
        texts(pairs_map(pairs)) == as_map(
            pairs.map_values(|pair: (String, String)| (pair.0@, pair.1@)),
        ),
    decreases pairs.len(),
{
    let list = pairs.map_values(|pair: (String, String)| (pair.0@, pair.1@));
    if pairs.len() == 0 {
        assert(texts(pairs_map(pairs)) =~= as_map(list));
    } else {
        lemma_listing_map(pairs.drop_last());
        assert(list.drop_last() =~= pairs.drop_last().map_values(
            |pair: (String, String)| (pair.0@, pair.1@),
        ));
        assert(texts(pairs_map(pairs)) =~= as_map(list));
    }
}

/// Putting a value under a key of the table assigns it in the listing.
pub proof fn lemma_listing_put(pairs: Seq<(String, String)>, key: String, value: String)
    requires
        distinct_keys(pairs),
    ensures
        put(pairs, key, value).map_values(|pair: (String, String)| (pair.0@, pair.1@)) == assign(
            pairs.map_values(|pair: (String, String)| (pair.0@, pair.1@)),
            key@,
            value@,
        ),
{
    let list = pairs.map_values(|pair: (String, String)| (pair.0@, pair.1@));
    let after = put(pairs, key, value).map_values(|pair: (String, String)| (pair.0@, pair.1@));
    if has_key(pairs, key@) {
        let i = index_of(pairs, key@);
        assert(list[i].0 == key@);
        let j = place(list, key@);
        assert(pairs[j].0@ == list[j].0);
        if i < j {
            assert(pairs[i].0@ != pairs[j].0@);
        } else if j < i {
            assert(pairs[j].0@ != pairs[i].0@);
        }
        assert(after =~= assign(list, key@, value@));
    } else {
        if names(list, key@) {
            let j = place(list, key@);
            assert(pairs[j].0@ == key@);
        }
        assert(after =~= assign(list, key@, value@));
    }
}

/// A character of a name: an ASCII digit or letter, or `_`.
pub open spec fn is_name_char(c: char) -> bool {
    let n = c as u32;
    (48 <= n <= 57) || (65 <= n <= 90) || (97 <= n <= 122) || n == 95
}

/// A character of white space, as Unicode has it.
pub open spec fn is_space(c: char) -> bool {
    let n = c as u32;
    (9 <= n <= 13) || n == 32 || n == 0x85 || n == 0xa0 || n == 0x1680 || (0x2000 <= n <= 0x200a)
        || n == 0x2028 || n == 0x2029 || n == 0x202f || n == 0x205f || n == 0x3000
}

/// Where the characters of a name that begin at `i` end.
pub open spec fn name_end(s: Seq<char>, i: int) -> int
    decreases s.len() - i,
{
    if 0 <= i < s.len() && is_name_char(s[i]) {
        name_end(s, i + 1)
    } else {
        i
    }
}

/// Where the white space that begins at `i` ends.
pub open spec fn space_end(s: Seq<char>, i: int) -> int
    decreases s.len() - i,
{
    if 0 <= i < s.len() && is_space(s[i]) {
        space_end(s, i + 1)
    } else {
        i
    }
}

/// Where the first `)` at or behind `i` stands; the length of `s` where
/// there is none.
pub open spec fn paren_from(s: Seq<char>, i: int) -> int
    decreases s.len() - i,
{
    if 0 <= i < s.len() && s[i] != ')' {
        paren_from(s, i + 1)
    } else {
        i
    }
}

/// The three scans end at or behind their start and within the text.
pub proof fn lemma_scans(s: Seq<char>, i: int)
    requires
        0 <= i <= s.len(),
    ensures
        i <= name_end(s, i) <= s.len(),
        i <= space_end(s, i) <= s.len(),
        i <= paren_from(s, i) <= s.len(),
    decreases s.len() - i,
{
    if i < s.len() {
        lemma_scans(s, i + 1);
    }
}

/// What the template language finds at a `$`.
pub enum Token {
    /// A variable, written `$name` or `${ name }`; the token ends before
    /// `end`.
    Variable { name: Seq<char>, end: int },
    /// A function applied to a text, written `${ name( text ) }`; the text
    /// begins behind the white space that follows `(` and ends before the
    /// first `)`.
    Call { name: Seq<char>, input: Seq<char>, end: int },
}

/// The token that begins at `i`, if one does.
pub open spec fn token_at(s: Seq<char>, i: int) -> Option<Token> {
    if !(0 <= i < s.len()) || s[i] != '$' {
        None
    } else if i + 1 < s.len() && is_name_char(s[i + 1]) {
        let e = name_end(s, i + 1);
        Some(Token::Variable { name: s.subrange(i + 1, e), end: e })
    } else if i + 1 < s.len() && s[i + 1] == '{' {
        let a = space_end(s, i + 2);
        let b = name_end(s, a);
        let c = space_end(s, b);
        if b == a {
            None
        } else if c < s.len() && s[c] == '}' {
            Some(Token::Variable { name: s.subrange(a, b), end: c + 1 })
        } else if b < s.len() && s[b] == '(' {
            let d = space_end(s, b + 1);
            let e = paren_from(s, d);
            let f = space_end(s, e + 1);
            if e < s.len() && f < s.len() && s[f] == '}' {
                Some(Token::Call { name: s.subrange(a, b), input: s.subrange(d, e), end: f + 1 })
            } else {
                None
            }
        } else {
            None
        }
    } else {
        None
    }
}

/// A token ends behind its `$` and within the text, and the text that a
/// function is applied to is shorter than the whole.
pub proof fn lemma_token(s: Seq<char>, i: int)
    ensures
        match token_at(s, i) {
            Some(Token::Variable { name, end }) => 0 <= i < end <= s.len(),
            Some(Token::Call { name, input, end }) => 0 <= i < end <= s.len() && input.len()
                < s.len(),
            None => true,
        },
{
    if 0 <= i < s.len() && s[i] == '$' && i + 1 < s.len() {
        lemma_scans(s, i + 1);
        if s[i + 1] == '{' {
            lemma_scans(s, i + 2);
            let a = space_end(s, i + 2);
            lemma_scans(s, a);
            let b = name_end(s, a);
            lemma_scans(s, b);
            if b < s.len() {
                lemma_scans(s, b + 1);
                let d = space_end(s, b + 1);
                lemma_scans(s, d);
                let e = paren_from(s, d);
                if e < s.len() {
                    lemma_scans(s, e + 1);
                }
            }
        }
    }
}

/// What stands for a variable: its value, or `${name}` where it has none.
pub open spec fn variable_value(vars: Map<Seq<char>, Seq<char>>, name: Seq<char>) -> Seq<char> {
    if vars.dom().contains(name) {
        vars[name]
    } else {
        "${"@ + name + "}"@
    }
}

/// What stands for a function applied to `argument`: its base64 text for
/// `base64`, and `${name(argument)}` for a function that is not known.
pub open spec fn call_value(name: Seq<char>, argument: Seq<char>) -> Seq<char> {
    if name == "base64"@ {
        base64_text(argument)
    } else {
        "${"@ + name + "("@ + argument + ")}"@
    }
}

/// The text `s` from `i` on, with each token replaced by what it stands for.
/// Tokens are taken from left to right and do not overlap; the text that a
/// function is applied to is itself expanded first.
pub open spec fn expanded_from(vars: Map<Seq<char>, Seq<char>>, s: Seq<char>, i: int) -> Seq<char>
    decreases s.len(), s.len() - i,
    via expanded_from_decreases
{
    if !(0 <= i < s.len()) {
        Seq::empty()
    } else {
        match token_at(s, i) {
            Some(Token::Variable { name, end }) => variable_value(vars, name) + expanded_from(
                vars,
                s,
                end,
            ),
            Some(Token::Call { name, input, end }) => call_value(
                name,
                expanded_from(vars, input, 0),
            ) + expanded_from(vars, s, end),
            None => seq![s[i]] + expanded_from(vars, s, i + 1),
        }
    }
}

#[via_fn]
proof fn expanded_from_decreases(vars: Map<Seq<char>, Seq<char>>, s: Seq<char>, i: int) {
    lemma_token(s, i);
}

/// The text `s` with each token replaced by what it stands for.
pub open spec fn expanded(vars: Map<Seq<char>, Seq<char>>, s: Seq<char>) -> Seq<char> {
    expanded_from(vars, s, 0)
}

fn is_name(c: char) -> (r: bool)
    ensures
        r == is_name_char(c),
{
    let n = c as u32;
    (48 <= n && n <= 57) || (65 <= n && n <= 90) || (97 <= n && n <= 122) || n == 95
}

fn is_white(c: char) -> (r: bool)
    ensures
        r == is_space(c),
{
    let n = c as u32;
    (9 <= n && n <= 13) || n == 32 || n == 0x85 || n == 0xa0 || n == 0x1680 || (0x2000 <= n && n
        <= 0x200a) || n == 0x2028 || n == 0x2029 || n == 0x202f || n == 0x205f || n == 0x3000
}

fn scan_name(s: &Vec<char>, i: usize) -> (e: usize)
    requires
        i <= s.len(),
    ensures
        i <= e <= s.len(),
        e == name_end(s@, i as int),
{
    let mut e = i;
    while e < s.len() && is_name(s[e])
        invariant
            i <= e <= s.len(),
            name_end(s@, e as int) == name_end(s@, i as int),
        decreases s.len() - e,
    {
        e += 1;
    }
    e
}

fn scan_space(s: &Vec<char>, i: usize) -> (e: usize)
    requires
        i <= s.len(),
    ensures
        i <= e <= s.len(),
        e == space_end(s@, i as int),
{
    let mut e = i;
    while e < s.len() && is_white(s[e])
        invariant
            i <= e <= s.len(),
            space_end(s@, e as int) == space_end(s@, i as int),
        decreases s.len() - e,
    {
        e += 1;
    }
    e
}

fn scan_paren(s: &Vec<char>, i: usize) -> (e: usize)
    requires
        i <= s.len(),
    ensures
        i <= e <= s.len(),
        e == paren_from(s@, i as int),
{
    let mut e = i;
    while e < s.len() && s[e] != ')'
        invariant
            i <= e <= s.len(),
            paren_from(s@, e as int) == paren_from(s@, i as int),
        decreases s.len() - e,
    {
        e += 1;
    }
    e
}

/// Where a token stands in a text.
enum Found {
    Variable { from: usize, to: usize, end: usize },
    Call { from: usize, to: usize, input_from: usize, input_to: usize, end: usize },
    Nothing,
}

impl Found {
    spec fn token(&self, s: Seq<char>) -> Option<Token> {
        match *self {
            Found::Variable { from, to, end } => Some(
                Token::Variable { name: s.subrange(from as int, to as int), end: end as int },
            ),
            Found::Call { from, to, input_from, input_to, end } => Some(
                Token::Call {
                    name: s.subrange(from as int, to as int),
                    input: s.subrange(input_from as int, input_to as int),
                    end: end as int,
                },
            ),
            Found::Nothing => None,
        }
    }

    spec fn within(&self, s: Seq<char>, i: int) -> bool {
        match *self {
            Found::Variable { from, to, end } => from <= to <= end && i < end <= s.len(),
            Found::Call { from, to, input_from, input_to, end } => from <= to <= input_from
                <= input_to < end && i < end <= s.len() && i < input_from,
            Found::Nothing => true,
        }
    }
}

fn find_token(s: &Vec<char>, i: usize) -> (r: Found)
    requires
        i < s.len(),
    ensures
        r.token(s@) == token_at(s@, i as int),
        r.within(s@, i as int),
{
    if s[i] != '$' || i + 1 >= s.len() {
        return Found::Nothing;
    }
    if is_name(s[i + 1]) {
        let e = scan_name(s, i + 1);
        return Found::Variable { from: i + 1, to: e, end: e };
    }
    if s[i + 1] != '{' {
        return Found::Nothing;
    }
    let a = scan_space(s, i + 2);
    let b = scan_name(s, a);
    let c = scan_space(s, b);
    if b == a {
        return Found::Nothing;
    }
    if c < s.len() && s[c] == '}' {
        return Found::Variable { from: a, to: b, end: c + 1 };
    }
    if b < s.len() && s[b] == '(' {
        let d = scan_space(s, b + 1);
        let e = scan_paren(s, d);
        if e < s.len() {
            let f = scan_space(s, e + 1);
            if f < s.len() && s[f] == '}' {
                return Found::Call { from: a, to: b, input_from: d, input_to: e, end: f + 1 };
            }
        }
    }
    Found::Nothing
}

/// The characters of `text`.
pub fn chars_of(text: &str) -> (r: Vec<char>)
    ensures
        r@ == text@,
{
    let mut r: Vec<char> = Vec::new();
    for c in it: text.chars()
        invariant
            it.seq() == text@,
            r@ == it.seq().take(it.index() as int),
    {
        r.push(c);
        proof {
            assert(it.seq().take(it.index() + 1) =~= it.seq().take(it.index() as int).push(c));
        }
    }
    proof {
        assert(text@.take(text@.len() as int) =~= text@);
    }
    r
}

/// The text of the characters `s[from..to]`.
pub fn text_of(s: &Vec<char>, from: usize, to: usize) -> (r: String)
    requires
        from <= to <= s.len(),
    ensures
        r@ == s@.subrange(from as int, to as int),
{
    let mut r = String::new();
    let mut i = from;
    while i < to
        invariant
            from <= i <= to <= s.len(),
            r@ == s@.subrange(from as int, i as int),
        decreases to - i,
    {
        push_char(&mut r, s[i]);
        i += 1;
        proof {
            assert(s@.subrange(from as int, i as int) =~= s@.subrange(from as int, i - 1).push(
                s@[i - 1],
            ));
        }
    }
    r
}

fn chars_between(s: &Vec<char>, from: usize, to: usize) -> (r: Vec<char>)
    requires
        from <= to <= s.len(),
    ensures
        r@ == s@.subrange(from as int, to as int),
{
    let mut r: Vec<char> = Vec::new();
    let mut i = from;
    while i < to
        invariant
            from <= i <= to <= s.len(),
            r@ == s@.subrange(from as int, i as int),
        decreases to - i,
    {
        r.push(s[i]);
        i += 1;
        proof {
            assert(s@.subrange(from as int, i as int) =~= s@.subrange(from as int, i - 1).push(
                s@[i - 1],
            ));
        }
    }
    r
}

fn variable(vars: &Vars, name: String) -> (r: String)
    requires
        vars.wf(),
    ensures
        r@ == variable_value(texts(vars@), name@),
{
    match vars.get(&name) {
        Some(value) => value.clone(),
        None => {
            let mut r = String::from_str("${");
            r.append(name.as_str());
            r.append("}");
            r
        },
    }
}

fn call(name: String, argument: String) -> (r: String)
    ensures
        r@ == call_value(name@, argument@),
{
    if name == String::from_str("base64") {
        base64(argument.as_str())
    } else {
        let mut r = String::from_str("${");
        r.append(name.as_str());
        r.append("(");
        r.append(argument.as_str());
        r.append(")}");
        r
    }
}

fn expand_chars(vars: &Vars, s: &Vec<char>) -> (r: String)
    requires
        vars.wf(),
    ensures
        r@ == expanded(texts(vars@), s@),
    decreases s.len(),
{
    let ghost map = texts(vars@);
    let mut out = String::new();
    let mut i: usize = 0;
    while i < s.len()
        invariant
            i <= s.len(),
            vars.wf(),
            map == texts(vars@),
            out@ + expanded_from(map, s@, i as int) == expanded(map, s@),
        decreases s.len() - i,
    {
        let ghost before = out@;
        match find_token(s, i) {
            Found::Nothing => {
                push_char(&mut out, s[i]);
                proof {
                    assert(out@ + expanded_from(map, s@, i + 1) =~= before + expanded_from(
                        map,
                        s@,
                        i as int,
                    ));
                }
                i += 1;
            },
            Found::Variable { from, to, end } => {
                let value = variable(vars, text_of(s, from, to));
                out.append(value.as_str());
                proof {
                    assert(out@ + expanded_from(map, s@, end as int) =~= before + expanded_from(
                        map,
                        s@,
                        i as int,
                    ));
                }
                i = end;
            },
            Found::Call { from, to, input_from, input_to, end } => {
                let input = chars_between(s, input_from, input_to);
                let argument = expand_chars(vars, &input);
                let value = call(text_of(s, from, to), argument);
                out.append(value.as_str());
                proof {
                    assert(out@ + expanded_from(map, s@, end as int) =~= before + expanded_from(
                        map,
                        s@,
                        i as int,
                    ));
                }
                i = end;
            },
        }
    }
    out
}

/// Expands the variables and functions of a template.
pub fn replace_variable(vars: &Vars, input: &str) -> (r: String)
    requires
        vars.wf(),
    ensures
        r@ == expanded(texts(vars@), input@),
{
    let chars = chars_of(input);
    expand_chars(vars, &chars)
}

} // verus!
