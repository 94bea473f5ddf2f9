use regex::{Captures, Regex};
use tools_server::command::base64;
use tools_server::table::Table;
use tools_server::template::{chars_of, replace_variable, text_of, Vars};

fn vars(list: &[(&str, &str)]) -> Vars {
    let mut vars: Vars = Table::new();
    for (name, value) in list {
        vars.insert(name.to_string(), value.to_string());
    }
    vars
}

fn sample() -> Vars {
    vars(&[("name", "world"), ("n_1", "one"), ("empty", ""), ("d", "$name"), ("base64", "b")])
}

#[test]
fn variables_are_replaced_by_their_values() {
    let vars = sample();
    assert_eq!(replace_variable(&vars, "hello $name"), "hello world");
    assert_eq!(replace_variable(&vars, "hello ${name}!"), "hello world!");
    assert_eq!(replace_variable(&vars, "hello ${ name }"), "hello world");
    assert_eq!(replace_variable(&vars, "$name$name"), "worldworld");
    assert_eq!(replace_variable(&vars, "$n_1-$empty-"), "one--");
    assert_eq!(replace_variable(&vars, "$name.txt"), "world.txt");
    assert_eq!(replace_variable(&vars, "x$namey"), "x${namey}");
    assert_eq!(replace_variable(&vars, ""), "");
    assert_eq!(replace_variable(&vars, "no variables"), "no variables");
}

#[test]
fn a_value_is_not_expanded_again() {
    assert_eq!(replace_variable(&sample(), "$d"), "$name");
}

#[test]
fn a_variable_without_a_value_stays_in_braces() {
    let vars = sample();
    assert_eq!(replace_variable(&vars, "$missing"), "${missing}");
    assert_eq!(replace_variable(&vars, "${missing}"), "${missing}");
    assert_eq!(replace_variable(&vars, "${  missing\t}"), "${missing}");
}

#[test]
fn functions_are_applied_to_their_expanded_text() {
    let vars = sample();
    assert_eq!(replace_variable(&vars, "${base64(hello)}"), "aGVsbG8=");
    assert_eq!(replace_variable(&vars, "${base64($name)}"), "d29ybGQ=");
    assert_eq!(replace_variable(&vars, "${ base64(  hello) }"), "aGVsbG8=");
    assert_eq!(replace_variable(&vars, "${base64(hello )}"), base64("hello "));
    assert_eq!(replace_variable(&vars, "${base64()}"), "");
    assert_eq!(replace_variable(&vars, "${upper(x)}"), "${upper(x)}");
    assert_eq!(replace_variable(&vars, "${upper( $name )}"), "${upper(world )}");
    assert_eq!(replace_variable(&vars, "${f(${name})}"), "${f(world)}");
    assert_eq!(replace_variable(&vars, "${f(a\nb)}"), "${f(a\nb)}");
}

#[test]
fn what_is_no_token_is_kept() {
    let vars = sample();
    for text in [
        "$",
        "$$",
        "${",
        "${}",
        "${ }",
        "${name",
        "${name x}",
        "${na me}",
        "${ f (x) }",
        "${f(x}",
        "${f(x)",
        "${f(x)y}",
        "${f(a)b)}",
        "$-name",
        "$\u{e9}",
        "{name}",
        "a$",
    ] {
        assert_eq!(replace_variable(&vars, text), text);
    }
    assert_eq!(replace_variable(&vars, "$$name"), "$world");
    assert_eq!(replace_variable(&vars, "${$name}"), "${world}");
    assert_eq!(replace_variable(&vars, "${name$name}"), "${nameworld}");
}

#[test]
fn unicode_white_space_may_stand_inside_the_braces() {
    let vars = sample();
    assert_eq!(replace_variable(&vars, "${\u{a0}name\u{3000}}"), "world");
    assert_eq!(replace_variable(&vars, "${\u{2003}base64(\u{2028}hello)\u{85}}"), "aGVsbG8=");
    assert_eq!(replace_variable(&vars, "${\u{200b}name}"), "${\u{200b}name}");
}

#[test]
fn texts_and_characters() {
    assert_eq!(chars_of("a\u{e9}\u{1f600}"), vec!['a', '\u{e9}', '\u{1f600}']);
    assert_eq!(chars_of(""), Vec::<char>::new());
    let chars = vec!['a', '\u{e9}', 'c', 'd'];
    assert_eq!(text_of(&chars, 1, 3), "\u{e9}c");
    assert_eq!(text_of(&chars, 2, 2), "");
    assert_eq!(text_of(&chars, 0, 4), "a\u{e9}cd");
}

fn by_pattern(pattern: &Regex, vars: &Vars, input: &str) -> String {
    let value = |name: &str| match vars.get(&name.to_string()) {
        Some(value) => value.clone(),
        None => format!("${{{}}}", name),
    };
    pattern
        .replace_all(input, |cap: &Captures| {
            if let Some(var) = cap.name("var1") {
                value(var.as_str())
            } else if let Some(var) = cap.name("var2") {
                value(var.as_str())
            } else if let Some(fname) = cap.name("fn") {
                let finput = by_pattern(pattern, vars, cap.name("finput").unwrap().as_str());
                match fname.as_str() {
                    "base64" => base64(&finput),
                    fname => format!("${{{}({})}}", fname, finput),
                }
            } else {
                unreachable!()
            }
        })
        .into_owned()
}

#[test]
fn expansion_agrees_with_the_pattern_of_the_language() {
    let pattern = Regex::new(
        r#"(?x)
            ( \$(?P<var1>[0-9A-Za-z_]+) ) |
            ( \$\{\s*(?P<var2>[0-9A-Za-z_]+)\s*\} ) |
            ( \$\{\s* (?P<fn>[0-9A-Za-z_]+) \( \s*(?P<finput>[^\)]*)\s* \) \s*\} )
        "#,
    )
    .unwrap();
    let vars = sample();
    let alphabet = ['$', '{', '}', '(', ')', ' ', 'n', '_', '1', '\u{a0}', '-'];
    let mut state: u64 = 0x2545_f491_4f6c_dd1d;
    let mut checked = 0;
    while checked < 20000 {
        let mut text = String::new();
        state ^= state << 13;
        state ^= state >> 7;
        state ^= state << 17;
        let len = (state % 12) as usize;
        let mut draw = state / 12;
        for _ in 0..len {
            text.push(alphabet[(draw % 11) as usize]);
            draw /= 11;
        }
        assert_eq!(replace_variable(&vars, &text), by_pattern(&pattern, &vars, &text));
        checked += 1;
    }
    for text in [
        "${base64( ${ name } )} and ${ upper($n_1) }",
        "${name}${base64(a)}$name",
        "${f(\u{2003}x\u{2003})\u{2003}}",
        "${f(())}",
        "${f(a}b)}",
        "$name\u{e9}${name}\u{1f600}",
        "${\tname\r\n}",
        "${name\u{b}}",
        "${\u{1680}f(\u{205f}x)}",
        "${base64(${base64(x)})}",
    ] {
        assert_eq!(replace_variable(&vars, text), by_pattern(&pattern, &vars, text));
    }
}
