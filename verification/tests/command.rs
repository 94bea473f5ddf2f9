use tools_server::args::{parse_header_args, split_assignment};
use tools_server::command::{
    base64, command, reply, split_blank_line, CommandOpt, Invocation, RespFormat,
};
use tools_server::table::Table;
use tools_server::template::Vars;
use tools_server::text::decimal_text;
use tools_server::Reply;

fn strings(list: &[&str]) -> Vec<String> {
    list.iter().map(|s| s.to_string()).collect()
}

fn vars(list: &[(&str, &str)]) -> Vars {
    let mut vars: Vars = Table::new();
    for (name, value) in list {
        vars.insert(name.to_string(), value.to_string());
    }
    vars
}

fn pairs(list: &[(&str, &str)]) -> Vec<(String, String)> {
    list.iter().map(|(k, v)| (k.to_string(), v.to_string())).collect()
}

#[test]
fn options_default() {
    let opts = CommandOpt::default();
    assert!(!opts.parse_body);
    assert_eq!(opts.output_format, RespFormat::Format);
    assert!(opts.unknown_opts.is_empty());
    let opts = CommandOpt::from_opts(Vec::new());
    assert!(!opts.parse_body);
    assert_eq!(opts.output_format, RespFormat::Format);
    assert!(opts.unknown_opts.is_empty());
}

#[test]
fn options_are_read_in_order() {
    let opts = CommandOpt::from_opts(strings(&["stdout", "verbose", "parse-body", "stderr", "x"]));
    assert!(opts.parse_body);
    assert_eq!(opts.output_format, RespFormat::Stderr);
    assert_eq!(opts.unknown_opts, strings(&["verbose", "x"]));
    assert_eq!(CommandOpt::from_opts(strings(&["stdout"])).output_format, RespFormat::Stdout);
    assert_eq!(CommandOpt::from_opts(strings(&["stdall"])).output_format, RespFormat::Stdall);
    assert_eq!(
        CommandOpt::from_opts(strings(&["stdall", "format"])).output_format,
        RespFormat::Format
    );
    let opts = CommandOpt::from_opts(strings(&["Stdout", "parse_body", ""]));
    assert!(!opts.parse_body);
    assert_eq!(opts.output_format, RespFormat::Format);
    assert_eq!(opts.unknown_opts, strings(&["Stdout", "parse_body", ""]));
}

#[test]
fn base64_of_a_text() {
    assert_eq!(base64("hello"), "aGVsbG8=");
    assert_eq!(base64(""), "");
    assert_eq!(base64("world"), "d29ybGQ=");
    assert_eq!(base64("a"), "YQ==");
    assert_eq!(base64("\u{e9}"), "w6k=");
}

#[test]
fn a_body_is_cut_at_its_first_empty_line() {
    assert_eq!(
        split_blank_line(b"head\n\ntail\n\nmore".to_vec()),
        (b"head".to_vec(), b"tail\n\nmore".to_vec())
    );
    assert_eq!(split_blank_line(b"no blank\nline".to_vec()), (b"no blank\nline".to_vec(), Vec::new()));
    assert_eq!(split_blank_line(Vec::new()), (Vec::new(), Vec::new()));
    assert_eq!(split_blank_line(b"\n".to_vec()), (b"\n".to_vec(), Vec::new()));
    assert_eq!(split_blank_line(b"\n\n".to_vec()), (Vec::new(), Vec::new()));
    assert_eq!(split_blank_line(b"\n\n\n".to_vec()), (Vec::new(), b"\n".to_vec()));
    assert_eq!(split_blank_line(b"a\n\n".to_vec()), (b"a".to_vec(), Vec::new()));
    assert_eq!(split_blank_line(b"a\r\n\r\nb".to_vec()), (b"a\r\n\r\nb".to_vec(), Vec::new()));
}

#[test]
fn header_values_become_words() {
    let vars = vars(&[("name", "world"), ("two", "a b")]);
    assert_eq!(
        parse_header_args(&strings(&["-n,hello $name", "'quoted arg' \"x y\""]), &vars),
        Some(strings(&["-n", "hello", "world", "quoted arg", "x y"]))
    );
    assert_eq!(parse_header_args(&strings(&["$two"]), &vars), Some(strings(&["a", "b"])));
    assert_eq!(parse_header_args(&strings(&["'$two'"]), &vars), Some(strings(&["a b"])));
    assert_eq!(parse_header_args(&strings(&[""]), &vars), Some(Vec::new()));
    assert_eq!(parse_header_args(&Vec::new(), &vars), Some(Vec::new()));
    assert_eq!(parse_header_args(&strings(&["a,,b"]), &vars), Some(strings(&["a", "b"])));
    assert_eq!(parse_header_args(&strings(&["a\\ b"]), &vars), Some(strings(&["a b"])));
}

#[test]
fn an_open_quote_gives_no_words() {
    let vars = vars(&[]);
    assert_eq!(parse_header_args(&strings(&["ok", "'open"]), &vars), None);
    assert_eq!(parse_header_args(&strings(&["\"open"]), &vars), None);
    assert_eq!(parse_header_args(&strings(&["'a,b'"]), &vars), None);
}

#[test]
fn a_word_assigns_at_its_first_equals() {
    assert_eq!(split_assignment("k=v"), Some(("k".to_string(), "v".to_string())));
    assert_eq!(split_assignment("k=v=w"), Some(("k".to_string(), "v=w".to_string())));
    assert_eq!(split_assignment("=v"), Some(("".to_string(), "v".to_string())));
    assert_eq!(split_assignment("k="), Some(("k".to_string(), "".to_string())));
    assert_eq!(split_assignment("kv"), None);
    assert_eq!(split_assignment(""), None);
}

fn planned(
    app: &str,
    query: &[(&str, &str)],
    vars_values: &[&str],
    args_values: &[&str],
    opts_values: &[&str],
    body: &[u8],
) -> Invocation {
    command(
        app,
        pairs(query),
        &strings(vars_values),
        &strings(args_values),
        &strings(opts_values),
        body.to_vec(),
    )
    .unwrap()
}

#[test]
fn a_plain_request_runs_the_tool_on_its_body() {
    let run = planned("wc", &[], &[], &["-l"], &[], b"a\nb\n");
    assert_eq!(run.program, "./tools/wc");
    assert_eq!(run.args, strings(&["-l"]));
    assert!(!run.opts.parse_body);
    assert_eq!(run.opts.output_format, RespFormat::Format);
    assert!(run.opts.unknown_opts.is_empty());
    assert_eq!(run.body, b"a\nb\n".to_vec());
}

#[test]
fn variables_come_from_the_query_and_the_vars_header() {
    let run = planned(
        "echo",
        &[("who", "query"), ("greeting", "hi")],
        &["who=header extra=$greeting,plain"],
        &["$greeting $who $extra ${plain}"],
        &["stdout"],
        b"",
    );
    assert_eq!(run.args, strings(&["hi", "header", "hi", "${plain}"]));
    assert_eq!(run.opts.output_format, RespFormat::Stdout);
}

#[test]
fn a_variable_assigned_in_the_vars_header_is_not_seen_by_that_header() {
    let run = planned("t", &[], &["a=1 b=$a"], &["$a $b"], &[], b"");
    assert_eq!(run.args, strings(&["1", "${a}"]));
}

#[test]
fn variables_named_body_take_their_values_from_the_body() {
    let run = planned(
        "t",
        &[("first", "body"), ("name", "x")],
        &["second=body"],
        &["$first", "$second"],
        &[],
        b"one $name\n\ntwo $first\n\nrest",
    );
    assert_eq!(run.args, strings(&["one", "x", "two", "body"]));
    assert_eq!(run.body, b"rest".to_vec());
}

#[test]
fn the_body_is_expanded_where_asked() {
    let run = planned("t", &[("n", "7")], &[], &[], &["parse-body,stdall"], b"n=$n ${base64(hi)}");
    assert!(run.opts.parse_body);
    assert_eq!(run.opts.output_format, RespFormat::Stdall);
    assert_eq!(run.body, b"n=7 aGk=".to_vec());
    let run = planned("t", &[("n", "7")], &[], &[], &[], b"n=$n");
    assert_eq!(run.body, b"n=$n".to_vec());
}

#[test]
fn a_body_that_is_not_text_is_read_with_replacements() {
    let run = planned("t", &[], &[], &[], &["parse-body"], &[b'a', 0xff, b'b']);
    assert_eq!(run.body, "a\u{fffd}b".as_bytes().to_vec());
}

#[test]
fn a_header_that_cannot_be_split_gives_no_invocation() {
    assert!(command("t", Vec::new(), &strings(&["'"]), &Vec::new(), &Vec::new(), Vec::new())
        .is_none());
    assert!(command("t", Vec::new(), &Vec::new(), &strings(&["\""]), &Vec::new(), Vec::new())
        .is_none());
    assert!(command("t", Vec::new(), &Vec::new(), &Vec::new(), &strings(&["'"]), Vec::new())
        .is_none());
}

#[test]
fn replies_hold_the_outputs() {
    match reply(RespFormat::Stdout, "exit status: 0", 5, b"out".to_vec(), b"err".to_vec()) {
        Reply::Binary(bytes) => assert_eq!(bytes, b"out".to_vec()),
        _ => panic!("expected bytes"),
    }
    match reply(RespFormat::Stderr, "exit status: 0", 5, b"out".to_vec(), b"err".to_vec()) {
        Reply::Binary(bytes) => assert_eq!(bytes, b"err".to_vec()),
        _ => panic!("expected bytes"),
    }
    match reply(RespFormat::Stdall, "exit status: 0", 5, b"out".to_vec(), b"err".to_vec()) {
        Reply::Binary(bytes) => assert_eq!(bytes, b"out\n\nerr".to_vec()),
        _ => panic!("expected bytes"),
    }
    match reply(RespFormat::Format, "exit status: 1", 1234, b"out\n".to_vec(), vec![b'e', 0xff]) {
        Reply::UTF8(text) => assert_eq!(
            text,
            "status: exit status: 1\ntime: 1234ms\n\nstdout:\nout\n\n\nstderr:\ne\u{fffd}\n"
        ),
        _ => panic!("expected a text"),
    }
}

#[test]
fn numbers_are_written_in_decimal() {
    assert_eq!(decimal_text(0), "0");
    assert_eq!(decimal_text(7), "7");
    assert_eq!(decimal_text(10), "10");
    assert_eq!(decimal_text(12345), "12345");
    assert_eq!(decimal_text(1000000), "1000000");
    assert_eq!(decimal_text(u128::MAX), "340282366920938463463374607431768211455");
}
