//! Options of the command proxy and the text helpers that its templates use.

use vstd::prelude::*;
use vstd::string::{StrSliceExecFns, StringExecFns};
use vstd::utf8::encode_utf8;
use crate::args::{assignment, header_args, parse_header_args, split_assignment};
use crate::table::{distinct_keys, has_key, index_of, Table};
use crate::template::{
    as_map, assign, expanded, lemma_listing_map, lemma_listing_put, listing, replace_variable,
    texts, Listing, Vars,
};
use crate::text::{decimal, decimal_text, lossy, utf8_lossy};
use crate::Reply;

verus! {

/// Which of a tool's outputs makes up the reply.
#[derive(Clone, Copy, Debug, PartialEq, Eq)]
pub enum RespFormat {
    /// The tool's standard output, as it is.
    Stdout,
    /// The tool's standard error, as it is.
    Stderr,
    /// Standard output, an empty line, standard error.
    Stdall,
    /// A text that shows exit status, running time and both outputs.
    Format,
}

/// How the command proxy treats a request.
#[derive(Debug)]
pub struct CommandOpt {
    /// Whether variables are expanded in the request body.
    pub parse_body: bool,
    /// Which outputs the reply holds.
    pub output_format: RespFormat,
    /// The options that have no meaning, in the order given.
    pub unknown_opts: Vec<String>,
}

/// The output format that an option names, if it names one.
pub open spec fn format_named(opt: Seq<char>) -> Option<RespFormat> {
    if opt == "stdout"@ {
        Some(RespFormat::Stdout)
    } else if opt == "stderr"@ {
        Some(RespFormat::Stderr)
    } else if opt == "stdall"@ {
        Some(RespFormat::Stdall)
    } else if opt == "format"@ {
        Some(RespFormat::Format)
    } else {
        None
    }
}

/// Whether an option has a meaning.
pub open spec fn is_known(opt: Seq<char>) -> bool {
    opt == "parse-body"@ || format_named(opt) is Some
}

/// The output format that a list of options asks for: the one named last,
/// and `Format` where none is named.
pub open spec fn chosen_format(opts: Seq<Seq<char>>) -> RespFormat
    decreases opts.len(),
{
    if opts.len() == 0 {
        RespFormat::Format
    } else {
        match format_named(opts.last()) {
            Some(format) => format,
            None => chosen_format(opts.drop_last()),
        }
    }
}

/// The options without a meaning, in the order given.
pub open spec fn unknown_among(opts: Seq<Seq<char>>) -> Seq<Seq<char>> {
    opts.filter(|opt: Seq<char>| !is_known(opt))
}

/// The five option names are five different texts.
pub proof fn lemma_option_names()
    ensures
        format_named("parse-body"@) is None,
        format_named("stdout"@) == Some(RespFormat::Stdout),
        format_named("stderr"@) == Some(RespFormat::Stderr),
        format_named("stdall"@) == Some(RespFormat::Stdall),
        format_named("format"@) == Some(RespFormat::Format),
{
    reveal_strlit("parse-body");
    reveal_strlit("stdout");
    reveal_strlit("stderr");
    reveal_strlit("stdall");
    reveal_strlit("format");
    assert("parse-body"@.len() == 10);
    assert("stdout"@[3] == 'o');
    assert("stderr"@[3] == 'e');
    assert("stdall"@[3] == 'a');
    assert("format"@[0] == 'f');
    assert("stdout"@[0] == 's');
    assert("stderr"@[0] == 's');
    assert("stdall"@[0] == 's');
}

impl Default for CommandOpt {
    /// No body expansion, the `Format` reply, no unknown options.
    fn default() -> (r: Self)
        ensures
            !r.parse_body,
            r.output_format == RespFormat::Format,
            r.unknown_opts@.len() == 0,
    {
        CommandOpt {
            parse_body: false,
            output_format: RespFormat::Format,
            unknown_opts: Vec::new(),
        }
    }
}

impl CommandOpt {
    /// Reads a list of options: `parse-body` switches body expansion on, the
    /// last of `stdout`, `stderr`, `stdall` and `format` sets the reply, and
    /// every other option is kept as unknown.
    pub fn from_opts(opts: Vec<String>) -> (r: CommandOpt)
        ensures
            r.parse_body == opts.deep_view().contains("parse-body"@),
            r.output_format == chosen_format(opts.deep_view()),
            r.unknown_opts.deep_view() == unknown_among(opts.deep_view()),
    {
        let mut opt = CommandOpt::default();
        let ghost all = opts.deep_view();
        let parse_body = String::from_str("parse-body");
        let stdout = String::from_str("stdout");
        let stderr = String::from_str("stderr");
        let stdall = String::from_str("stdall");
        let format = String::from_str("format");
        proof {
            lemma_option_names();
            assert(all.take(0) =~= Seq::<Seq<char>>::empty());
            assert(opt.unknown_opts.deep_view() =~= unknown_among(all.take(0)));
        }
        let mut i: usize = 0;
        while i < opts.len()
            invariant
                i <= opts.len(),
                all == opts.deep_view(),
                parse_body@ == "parse-body"@,
                stdout@ == "stdout"@,
                stderr@ == "stderr"@,
                stdall@ == "stdall"@,
                format@ == "format"@,
                opt.parse_body == all.take(i as int).contains("parse-body"@),
                opt.output_format == chosen_format(all.take(i as int)),
                opt.unknown_opts.deep_view() == unknown_among(all.take(i as int)),
            decreases opts.len() - i,
        {
            let o = opts[i].clone();
            let ghost before = all.take(i as int);
            let ghost after = all.take(i + 1);
            proof {
                lemma_option_names();
                assert(all[i as int] == o@);
                assert(after.drop_last() =~= before);
                assert(after.last() == o@);
                assert(after =~= before.push(o@));
                lemma_filter_push(before, o@);
                assert(after.contains("parse-body"@) <==> (before.contains("parse-body"@) || o@
                    == "parse-body"@)) by {
                    if before.contains("parse-body"@) {
                        let k = choose|k: int| 0 <= k < before.len() && before[k] == "parse-body"@;
                        assert(after[k] == "parse-body"@);
                    }
                    if o@ == "parse-body"@ {
                        assert(after[i as int] == "parse-body"@);
                    }
                    if after.contains("parse-body"@) {
                        let k = choose|k: int| 0 <= k < after.len() && after[k] == "parse-body"@;
                        if k < i {
                            assert(before[k] == "parse-body"@);
                        }
                    }
                }
            }
            if o == parse_body {
                opt.parse_body = true;
            } else if o == stdout {
                opt.output_format = RespFormat::Stdout;
            } else if o == stderr {
                opt.output_format = RespFormat::Stderr;
            } else if o == stdall {
                opt.output_format = RespFormat::Stdall;
            } else if o == format {
                opt.output_format = RespFormat::Format;
            } else {
                let ghost kept = opt.unknown_opts.deep_view();
                opt.unknown_opts.push(o);
                proof {
                    assert(opt.unknown_opts.deep_view() =~= kept.push(o@));
                }
            }
            i += 1;
        }
        proof {
            assert(all.take(opts.len() as int) =~= all);
        }
        opt
    }
}

/// Filtering a list with one more item keeps the item or not.
proof fn lemma_filter_push(opts: Seq<Seq<char>>, opt: Seq<char>)
    ensures
        unknown_among(opts.push(opt)) == if is_known(opt) {
            unknown_among(opts)
        } else {
            unknown_among(opts).push(opt)
        },
{
    reveal(Seq::filter);
    assert(opts.push(opt).drop_last() =~= opts);
}

/// The base64 text of `input`'s UTF-8 bytes, in the standard alphabet and
/// padded with `=`.
pub uninterp spec fn base64_text(input: Seq<char>) -> Seq<char>;

/// `base64::encode`: the text that the standard alphabet with padding gives
/// for the bytes of `input`, a function of `input` alone. It fails only
/// where the length of the text does not fit the machine's word, longer than
/// the text of any `str`. That is taken from `base64` as it is written, and
/// not proved here.
#[verifier::external_body]
fn encode(input: &str) -> (r: String)
    ensures
        r@ == base64_text(input@),
{
    ::base64::encode(input)
}

/// The base64 text of `input`.
pub fn base64(input: &str) -> (r: String)
    ensures
        r@ == base64_text(input@),
{
    encode(input)
}

/// Byte that ends a line.
pub const NEWLINE: u8 = 10u8;

/// An empty line begins at `i`: two line ends in a row.
pub open spec fn blank_at(s: Seq<u8>, i: int) -> bool {
    0 <= i && i + 1 < s.len() && s[i] == NEWLINE && s[i + 1] == NEWLINE
}

/// Where the first empty line of `s` begins, if it holds one.
pub open spec fn first_blank(s: Seq<u8>) -> Option<int>
    decreases s.len(),
{
    if s.len() < 2 {
        None
    } else {
        match first_blank(s.drop_last()) {
            Some(i) => Some(i),
            None => if blank_at(s, s.len() - 2) {
                Some(s.len() - 2)
            } else {
                None
            },
        }
    }
}

/// `first_blank` is the first position at which an empty line begins.
pub proof fn lemma_first_blank(s: Seq<u8>)
    ensures
        match first_blank(s) {
            Some(i) => blank_at(s, i) && forall|j: int| 0 <= j < i ==> !blank_at(s, j),
            None => forall|j: int| !blank_at(s, j),
        },
    decreases s.len(),
{
    if s.len() >= 2 {
        let front = s.drop_last();
        lemma_first_blank(front);
        assert forall|j: int| blank_at(front, j) <==> (blank_at(s, j) && j + 2 < s.len()) by {}
    }
}

/// What stands before the first empty line of `s` and what stands behind
/// it; all of `s` and nothing where it holds no empty line.
pub open spec fn blank_split(s: Seq<u8>) -> (Seq<u8>, Seq<u8>) {
    match first_blank(s) {
        Some(i) => (s.take(i), s.skip(i + 2)),
        None => (s, Seq::empty()),
    }
}

/// Cuts `input` at its first empty line.
pub fn split_blank_line(input: Vec<u8>) -> (r: (Vec<u8>, Vec<u8>))
    ensures
        (r.0@, r.1@) == blank_split(input@),
{
    let len = input.len();
    proof {
        lemma_first_blank(input@);
    }
    if len < 2 {
        return (input, Vec::new());
    }
    let mut i: usize = 0;
    while i < len - 1
        invariant
            len == input.len(),
            len >= 2,
            i <= len - 1,
            forall|j: int| 0 <= j < i ==> !blank_at(input@, j),
        decreases len - i,
    {
        if input[i] == NEWLINE && input[i + 1] == NEWLINE {
            proof {
                lemma_first_blank(input@);
                assert(blank_at(input@, i as int));
                match first_blank(input@) {
                    Some(k) => {
                        if k < i {
                            assert(!blank_at(input@, k));
                        }
                    },
                    None => {},
                }
                assert(first_blank(input@) == Some(i as int));
            }
            let mut head = input;
            let mut rest = head.split_off(i);
            let tail = rest.split_off(2);
            proof {
                assert(head@ =~= input@.take(i as int));
                assert(tail@ =~= input@.skip(i + 2));
            }
            return (head, tail);
        }
        i += 1;
    }
    proof {
        lemma_first_blank(input@);
        match first_blank(input@) {
            Some(k) => {
                assert(blank_at(input@, k));
                assert(k < i);
            },
            None => {},
        }
    }
    (input, Vec::new())
}

/// The variables that a query gives, in the order of their first
/// occurrence, each with its last value.
pub open spec fn initial(query: Listing) -> Listing
    decreases query.len(),
{
    if query.len() == 0 {
        Seq::empty()
    } else {
        assign(initial(query.drop_last()), query.last().0, query.last().1)
    }
}

/// The variables after each word of the form `name=value` has assigned its
/// value, one after another; a word without `=` assigns nothing.
pub open spec fn assigned(list: Listing, words: Seq<Seq<char>>) -> Listing
    decreases words.len(),
{
    if words.len() == 0 {
        list
    } else {
        let before = assigned(list, words.drop_last());
        match assignment(words.last()) {
            Some((name, value)) => assign(before, name, value),
            None => before,
        }
    }
}

/// The variables and the body after each variable whose value is `body`
/// has taken its value from the body, in the order of the list: it is given
/// what stands before the body's first empty line, read as UTF-8 and
/// expanded with the variables as they were, and the body goes on behind
/// that empty line.
pub open spec fn body_pass(list: Listing, were: Map<Seq<char>, Seq<char>>, body: Seq<u8>) -> (
    Listing,
    Seq<u8>,
)
    decreases list.len(),
{
    if list.len() == 0 {
        (Seq::empty(), body)
    } else {
        let (done, rest) = body_pass(list.drop_last(), were, body);
        if list.last().1 == "body"@ {
            let (head, tail) = blank_split(rest);
            (done.push((list.last().0, expanded(were, utf8_lossy(head)))), tail)
        } else {
            (done.push(list.last()), rest)
        }
    }
}

/// What the command proxy is to run for a request.
pub struct Plan {
    /// The path of the tool.
    pub program: Seq<char>,
    /// The arguments of the tool.
    pub args: Seq<Seq<char>>,
    /// The options of the request.
    pub opts: Seq<Seq<char>>,
    /// What the tool reads from its standard input.
    pub body: Seq<u8>,
}

/// What the command proxy is to run for the tool `app` on a request: the
/// variables are those of the query and then those that the `vars` headers
/// assign; variables whose value is `body` take their values from the body;
/// the `args` and `opts` headers, read with these variables, give the
/// arguments and the options; and the body is expanded as a template where
/// the options ask for it. `None` where a header cannot be split into words.
pub open spec fn planned(
    app: Seq<char>,
    query: Listing,
    vars_values: Seq<Seq<char>>,
    args_values: Seq<Seq<char>>,
    opts_values: Seq<Seq<char>>,
    body: Seq<u8>,
) -> Option<Plan> {
    let given = initial(query);
    match header_args(vars_values, as_map(given)) {
        None => None,
        Some(words) => {
            let set = assigned(given, words);
            let (vars, rest) = body_pass(set, as_map(set), body);
            match (
                header_args(args_values, as_map(vars)),
                header_args(opts_values, as_map(vars)),
            ) {
                (Some(args), Some(opts)) => Some(
                    Plan {
                        program: "./tools/"@ + app,
                        args,
                        opts,
                        body: if opts.contains("parse-body"@) {
                            encode_utf8(expanded(as_map(vars), utf8_lossy(rest)))
                        } else {
                            rest
                        },
                    },
                ),
                _ => None,
            }
        },
    }
}

/// What the command proxy runs for a request.
#[derive(Debug)]
pub struct Invocation {
    /// The path of the tool.
    pub program: String,
    /// The arguments of the tool.
    pub args: Vec<String>,
    /// The options of the request.
    pub opts: CommandOpt,
    /// What the tool reads from its standard input.
    pub body: Vec<u8>,
}

impl Invocation {
    /// This is the invocation that `plan` describes.
    pub open spec fn carries_out(&self, plan: Plan) -> bool {
        &&& self.program@ == plan.program
        &&& self.args.deep_view() == plan.args
        &&& self.opts.parse_body == plan.opts.contains("parse-body"@)
        &&& self.opts.output_format == chosen_format(plan.opts)
        &&& self.opts.unknown_opts.deep_view() == unknown_among(plan.opts)
        &&& self.body@ == plan.body
    }
}

/// A list of pairs of texts, each by its characters.
pub open spec fn pair_texts(pairs: Seq<(String, String)>) -> Listing {
    pairs.map_values(|pair: (String, String)| (pair.0@, pair.1@))
}

fn vars_of(query: Vec<(String, String)>) -> (vars: Vars)
    ensures
        vars.wf(),
        listing(&vars) == initial(pair_texts(query@)),
{
    let mut vars: Vars = Table::new();
    let ghost all = query@;
    proof {
        assert(pair_texts(all.take(0)) =~= Seq::empty());
        assert(listing(&vars) =~= initial(pair_texts(all.take(0))));
    }
    for pair in it: query.into_iter()
        invariant
            it.seq() == all,
            vars.wf(),
            listing(&vars) == initial(pair_texts(all.take(it.index() as int))),
    {
        proof {
            let now = pair_texts(all.take(it.index() + 1));
            assert(now.drop_last() =~= pair_texts(all.take(it.index() as int)));
            assert(now.last() == (pair.0@, pair.1@));
            vars.lemma_entries();
            lemma_listing_put(vars.entries(), pair.0, pair.1);
        }
        vars.insert(pair.0, pair.1);
    }
    proof {
        assert(all.take(all.len() as int) =~= all);
    }
    vars
}

fn assign_words(vars: &mut Vars, words: Vec<String>)
    requires
        old(vars).wf(),
    ensures
        final(vars).wf(),
        listing(final(vars)) == assigned(listing(old(vars)), words.deep_view()),
{
    let ghost all = words.deep_view();
    let ghost start = listing(vars);
    proof {
        assert(all.take(0) =~= Seq::<Seq<char>>::empty());
    }
    let mut i: usize = 0;
    while i < words.len()
        invariant
            i <= words.len(),
            all == words.deep_view(),
            vars.wf(),
            listing(vars) == assigned(start, all.take(i as int)),
        decreases words.len() - i,
    {
        proof {
            assert(all.take(i + 1).drop_last() =~= all.take(i as int));
            assert(all.take(i + 1).last() == words[i as int]@);
        }
        match split_assignment(words[i].as_str()) {
            Some(pair) => {
                proof {
                    vars.lemma_entries();
                    lemma_listing_put(vars.entries(), pair.0, pair.1);
                }
                vars.insert(pair.0, pair.1);
            },
            None => {},
        }
        i += 1;
    }
    proof {
        assert(all.take(words.len() as int) =~= all);
    }
}

fn take_bodies(vars: &Vars, body: Vec<u8>) -> (r: (Vars, Vec<u8>))
    requires
        vars.wf(),
    ensures
        r.0.wf(),
        (listing(&r.0), r.1@) == body_pass(listing(vars), as_map(listing(vars)), body@),
{
    let pairs = vars.pairs();
    let ghost list = listing(vars);
    let ghost were = as_map(list);
    let mut taken: Vars = Table::new();
    let mut rest = body;
    let mut i: usize = 0;
    let marker = String::from_str("body");
    proof {
        vars.lemma_entries();
        lemma_listing_map(vars.entries());
        assert(list.take(0) =~= Seq::empty());
        assert(listing(&taken) =~= Seq::empty());
    }
    while i < pairs.len()
        invariant
            i <= pairs.len(),
            vars.wf(),
            pairs@ == vars.entries(),
            distinct_keys(pairs@),
            list == listing(vars),
            were == as_map(list),
            were == texts(vars@),
            marker@ == "body"@,
            taken.wf(),
            (listing(&taken), rest@) == body_pass(list.take(i as int), were, body@),
        decreases pairs.len() - i,
    {
        let name = pairs[i].0.clone();
        let ghost done = listing(&taken);
        proof {
            assert(list.take(i + 1).drop_last() =~= list.take(i as int));
            assert(list.take(i + 1).last() == (name@, pairs[i as int].1@));
            taken.lemma_entries();
            assert(!has_key(taken.entries(), name@)) by {
                if has_key(taken.entries(), name@) {
                    let k = index_of(taken.entries(), name@);
                    assert(done[k].0 == name@);
                    lemma_body_pass_names(list.take(i as int), were, body@);
                    assert(list.take(i as int)[k].0 == list[k].0);
                    assert(pairs@[k].0@ != pairs@[i as int].0@);
                }
            }
        }
        let value = if pairs[i].1 == marker {
            let (head, tail) = split_blank_line(rest);
            rest = tail;
            let read = lossy(head.as_slice());
            replace_variable(vars, read.as_str())
        } else {
            pairs[i].1.clone()
        };
        proof {
            lemma_listing_put(taken.entries(), name, value);
        }
        taken.insert(name, value);
        i += 1;
    }
    proof {
        assert(list.take(pairs.len() as int) =~= list);
    }
    (taken, rest)
}

/// The pass over the bodies keeps the names and their order.
proof fn lemma_body_pass_names(list: Listing, were: Map<Seq<char>, Seq<char>>, body: Seq<u8>)
    ensures
        body_pass(list, were, body).0.len() == list.len(),
        forall|k: int| 0 <= k < list.len() ==> body_pass(list, were, body).0[k].0 == list[k].0,
    decreases list.len(),
{
    if list.len() > 0 {
        let front = list.drop_last();
        lemma_body_pass_names(front, were, body);
        let passed = body_pass(list, were, body).0;
        assert forall|k: int| 0 <= k < list.len() implies passed[k].0 == list[k].0 by {
            if k < front.len() {
                assert(passed[k] == body_pass(front, were, body).0[k]);
                assert(front[k] == list[k]);
            }
        }
    }
}

/// Works out what the command proxy is to run for the tool `app`: `query`
/// holds the query parameters, `vars_values`, `args_values` and
/// `opts_values` the values of the headers of these names, and `body` the
/// body of the request. `None` where a header cannot be split into words.
pub fn command(
    app: &str,
    query: Vec<(String, String)>,
    vars_values: &Vec<String>,
    args_values: &Vec<String>,
    opts_values: &Vec<String>,
    body: Vec<u8>,
) -> (r: Option<Invocation>)
    ensures
        match planned(
            app@,
            pair_texts(query@),
            vars_values.deep_view(),
            args_values.deep_view(),
            opts_values.deep_view(),
            body@,
        ) {
            Some(plan) => r matches Some(invocation) && invocation.carries_out(plan),
            None => r is None,
        },
{
    let mut vars = vars_of(query);
    proof {
        vars.lemma_entries();
        lemma_listing_map(vars.entries());
    }
    let words = match parse_header_args(vars_values, &vars) {
        Some(words) => words,
        None => {
            return None;
        },
    };
    assign_words(&mut vars, words);
    let (vars, rest) = take_bodies(&vars, body);
    proof {
        vars.lemma_entries();
        lemma_listing_map(vars.entries());
    }
    let args = match parse_header_args(args_values, &vars) {
        Some(args) => args,
        None => {
            return None;
        },
    };
    let opts = match parse_header_args(opts_values, &vars) {
        Some(opts) => opts,
        None => {
            return None;
        },
    };
    let opts = CommandOpt::from_opts(opts);
    let body = if opts.parse_body {
        let read = lossy(rest.as_slice());
        let text = replace_variable(&vars, read.as_str());
        text.as_str().as_bytes_vec()
    } else {
        rest
    };
    let mut program = String::from_str("./tools/");
    program.append(app);
    Some(Invocation { program, args, opts, body })
}

/// Two line ends: what stands between a tool's standard output and its
/// standard error where a reply holds both.
pub open spec fn gap() -> Seq<u8> {
    seq![NEWLINE, NEWLINE]
}

/// The text that shows how a tool ran: its exit status as `status` words
/// it, its running time in milliseconds, and its two outputs read as UTF-8.
pub open spec fn report(status: Seq<char>, millis: nat, stdout: Seq<u8>, stderr: Seq<u8>) -> Seq<
    char,
> {
    "status: "@ + status + "\ntime: "@ + decimal(millis) + "ms\n\nstdout:\n"@ + utf8_lossy(stdout)
        + "\n\nstderr:\n"@ + utf8_lossy(stderr) + "\n"@
}

/// The reply to a request whose tool has run: one output or both as they
/// are, or the text that shows how it ran.
pub fn reply(
    format: RespFormat,
    status: &str,
    millis: u128,
    stdout: Vec<u8>,
    stderr: Vec<u8>,
) -> (r: Reply)
    ensures
        match format {
            RespFormat::Stdout => r matches Reply::Binary(bytes) && bytes@ == stdout@,
            RespFormat::Stderr => r matches Reply::Binary(bytes) && bytes@ == stderr@,
            RespFormat::Stdall => r matches Reply::Binary(bytes) && bytes@ == stdout@ + gap()
                + stderr@,
            RespFormat::Format => r matches Reply::UTF8(text) && text@ == report(
                status@,
                millis as nat,
                stdout@,
                stderr@,
            ),
        },
{
    match format {
        RespFormat::Stdout => Reply::Binary(stdout),
        RespFormat::Stderr => Reply::Binary(stderr),
        RespFormat::Stdall => {
            let mut both = stdout;
            let mut last = stderr;
            both.push(NEWLINE);
            both.push(NEWLINE);
            both.append(&mut last);
            proof {
                assert(both@ =~= stdout@ + gap() + stderr@);
            }
            Reply::Binary(both)
        },
        RespFormat::Format => {
            let mut text = String::from_str("status: ");
            text.append(status);
            text.append("\ntime: ");
            let time = decimal_text(millis);
            text.append(time.as_str());
            text.append("ms\n\nstdout:\n");
            let out = lossy(stdout.as_slice());
            text.append(out.as_str());
            text.append("\n\nstderr:\n");
            let err = lossy(stderr.as_slice());
            text.append(err.as_str());
            text.append("\n");
            Reply::UTF8(text)
        },
    }
}

} // verus!
