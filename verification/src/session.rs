//! The pinentry's decisions: how the command line is read, what each Assuan
//! command does to the session, and what is answered for each outcome of a
//! modal. The binary performs the I/O these decisions ask for.
use crate::assuan::{fresh_state, command_applied, Command, DialogState, Error, Source, State};
use crate::ipc::Response;
use crate::text::{
    chars_of, chars_range, decimal, parse_i32, parse_i32_or_zero, push_decimal, starts_with_str,
    str_eq,
};
use vstd::prelude::*;

verus! {

/* Command-line arguments */

/// Options given on the command line.
#[derive(Clone, Copy, Debug)]
pub struct Args {
    pub debug: bool,
    pub timeout: i32,
    /// `--version`: print the version and exit before the greeting.
    pub version: bool,
    /// `--help`: print the usage and exit before the greeting.
    pub help: bool,
}

/// The options before any argument is read.
pub open spec fn no_args() -> Args {
    Args { debug: false, timeout: 0, version: false, help: false }
}

/// Whether `a` is a standard pinentry option that takes a value which this
/// pinentry accepts and ignores.
pub open spec fn is_ignored_valued_option(a: Seq<char>) -> bool {
    ||| a == "--display"@
    ||| a == "-D"@
    ||| a == "--ttyname"@
    ||| a == "-T"@
    ||| a == "--ttytype"@
    ||| a == "-N"@
    ||| a == "--lc-ctype"@
    ||| a == "-C"@
    ||| a == "--lc-messages"@
    ||| a == "-M"@
    ||| a == "--colors"@
    ||| a == "--xauthority"@
    ||| a == "--parent-wid"@
    ||| a == "-W"@
}

/// The options after reading the arguments from index `i` on, having seen
/// `acc` so far. `--debug`/`-d` turn debugging on; `--version` and `--help`
/// ask for the version or the usage; `--timeout N`/`-o N`, `--timeout=N` and
/// `-oN` set the timeout (0 when `N` is not an `i32`; a last `--timeout`
/// without value changes nothing); the standard options that take a value
/// skip it; anything else is ignored.
pub open spec fn args_from(argv: Seq<Seq<char>>, i: int, acc: Args) -> Args
    decreases argv.len() + 1 - i,
{
    if i < 0 || i >= argv.len() {
        acc
    } else {
        let a = argv[i];
        if a == "--debug"@ || a == "-d"@ {
            args_from(argv, i + 1, Args { debug: true, ..acc })
        } else if a == "--version"@ {
            args_from(argv, i + 1, Args { version: true, ..acc })
        } else if a == "--help"@ {
            args_from(argv, i + 1, Args { help: true, ..acc })
        } else if a == "--timeout"@ || a == "-o"@ {
            if i + 1 < argv.len() {
                args_from(argv, i + 2, Args { timeout: parse_i32_or_zero(argv[i + 1]), ..acc })
            } else {
                args_from(argv, i + 2, acc)
            }
        } else if is_ignored_valued_option(a) {
            args_from(argv, i + 2, acc)
        } else if a == "--no-global-grab"@ || a == "-g"@ {
            args_from(argv, i + 1, acc)
        } else if "--timeout="@.len() <= a.len() && a.take("--timeout="@.len() as int)
            == "--timeout="@ {
            args_from(
                argv,
                i + 1,
                Args { timeout: parse_i32_or_zero(a.skip("--timeout="@.len() as int)), ..acc },
            )
        } else if "-o"@.len() <= a.len() && a.take("-o"@.len() as int) == "-o"@ && a.len() > 2 {
            args_from(argv, i + 1, Args { timeout: parse_i32_or_zero(a.skip(2)), ..acc })
        } else {
            args_from(argv, i + 1, acc)
        }
    }
}

/// The characters of each argument.
pub open spec fn arg_views(argv: Seq<String>) -> Seq<Seq<char>> {
    argv.map_values(|s: String| s@)
}

fn ignored_valued_option(a: &str) -> (r: bool)
    ensures
        r == is_ignored_valued_option(a@),
{
    str_eq(a, "--display") || str_eq(a, "-D") || str_eq(a, "--ttyname") || str_eq(a, "-T")
        || str_eq(a, "--ttytype") || str_eq(a, "-N") || str_eq(a, "--lc-ctype") || str_eq(a, "-C")
        || str_eq(a, "--lc-messages") || str_eq(a, "-M") || str_eq(a, "--colors") || str_eq(
        a,
        "--xauthority",
    ) || str_eq(a, "--parent-wid") || str_eq(a, "-W")
}

fn parse_or_zero(v: &[char]) -> (r: i32)
    ensures
        r == parse_i32_or_zero(v@),
{
    match parse_i32(v) {
        Some(t) => t,
        None => 0,
    }
}

/// Reads the options from `argv` (`argv[0]` being the program name).
pub fn parse_args(argv: &[String]) -> (a: Args)
    ensures
        a == args_from(arg_views(argv@), 1, no_args()),
{
    let ghost av = arg_views(argv@);
    let mut acc = Args { debug: false, timeout: 0, version: false, help: false };
    let mut i: usize = 1;
    while i < argv.len()
        invariant
            av == arg_views(argv@),
            av.len() == argv@.len(),
            1 <= i <= argv@.len() + 1,
            args_from(av, i as int, acc) == args_from(av, 1, no_args()),
        decreases argv@.len() + 1 - i,
    {
        let ghost (a0, i0) = (acc, i as int);
        let arg = argv[i].as_str();
        assert(av[i as int] == arg@);
        let mut step: usize = 1;
        if str_eq(arg, "--debug") || str_eq(arg, "-d") {
            acc.debug = true;
        } else if str_eq(arg, "--version") {
            acc.version = true;
        } else if str_eq(arg, "--help") {
            acc.help = true;
        } else if str_eq(arg, "--timeout") || str_eq(arg, "-o") {
            step = 2;
            if i + 1 < argv.len() {
                assert(av[i + 1] == argv@[i + 1]@);
                let v = chars_of(argv[i + 1].as_str());
                acc.timeout = parse_or_zero(v.as_slice());
            }
        } else if ignored_valued_option(arg) {
            step = 2;
        } else if str_eq(arg, "--no-global-grab") || str_eq(arg, "-g") {
        } else {
            let chars = chars_of(arg);
            let p = chars_of("--timeout=");
            if starts_with_str(chars.as_slice(), "--timeout=") {
                let rest = chars_range(chars.as_slice(), p.len(), chars.len());
                assert(rest@ =~= chars@.skip("--timeout="@.len() as int));
                acc.timeout = parse_or_zero(rest.as_slice());
            } else if starts_with_str(chars.as_slice(), "-o") && chars.len() > 2 {
                let rest = chars_range(chars.as_slice(), 2, chars.len());
                assert(rest@ =~= chars@.skip(2));
                acc.timeout = parse_or_zero(rest.as_slice());
            }
        }
        let next = if argv.len() - i > step {
            i + step
        } else {
            argv.len()
        };
        assert(args_from(av, i0 + step, acc) == args_from(av, i0, a0));
        assert(args_from(av, next as int, acc) == args_from(av, i0 + step, acc));
        i = next;
    }
    acc
}

proof fn lemma_option_words()
    ensures
        "--debug"@.len() == 7 && "--debug"@[0] == '-' && "--debug"@[1] == '-' && "--debug"@[2] == 'd' && "--debug"@[3] == 'e',
        "-d"@.len() == 2 && "-d"@[0] == '-' && "-d"@[1] == 'd',
        "--version"@.len() == 9 && "--version"@[0] == '-' && "--version"@[1] == '-' && "--version"@[2] == 'v' && "--version"@[3] == 'e',
        "--help"@.len() == 6 && "--help"@[0] == '-' && "--help"@[1] == '-' && "--help"@[2] == 'h' && "--help"@[3] == 'e',
        "--timeout"@.len() == 9 && "--timeout"@[0] == '-' && "--timeout"@[1] == '-' && "--timeout"@[2] == 't' && "--timeout"@[3] == 'i',
        "-o"@.len() == 2 && "-o"@[0] == '-' && "-o"@[1] == 'o',
        "--display"@.len() == 9 && "--display"@[0] == '-' && "--display"@[1] == '-' && "--display"@[2] == 'd' && "--display"@[3] == 'i',
        "-D"@.len() == 2 && "-D"@[0] == '-' && "-D"@[1] == 'D',
        "--ttyname"@.len() == 9 && "--ttyname"@[0] == '-' && "--ttyname"@[1] == '-' && "--ttyname"@[2] == 't' && "--ttyname"@[3] == 't',
        "-T"@.len() == 2 && "-T"@[0] == '-' && "-T"@[1] == 'T',
        "--ttytype"@.len() == 9 && "--ttytype"@[0] == '-' && "--ttytype"@[1] == '-' && "--ttytype"@[2] == 't' && "--ttytype"@[3] == 't',
        "-N"@.len() == 2 && "-N"@[0] == '-' && "-N"@[1] == 'N',
        "--lc-ctype"@.len() == 10 && "--lc-ctype"@[0] == '-' && "--lc-ctype"@[1] == '-' && "--lc-ctype"@[2] == 'l' && "--lc-ctype"@[3] == 'c',
        "-C"@.len() == 2 && "-C"@[0] == '-' && "-C"@[1] == 'C',
        "--lc-messages"@.len() == 13 && "--lc-messages"@[0] == '-' && "--lc-messages"@[1] == '-' && "--lc-messages"@[2] == 'l' && "--lc-messages"@[3] == 'c',
        "-M"@.len() == 2 && "-M"@[0] == '-' && "-M"@[1] == 'M',
        "--colors"@.len() == 8 && "--colors"@[0] == '-' && "--colors"@[1] == '-' && "--colors"@[2] == 'c' && "--colors"@[3] == 'o',
        "--xauthority"@.len() == 12 && "--xauthority"@[0] == '-' && "--xauthority"@[1] == '-' && "--xauthority"@[2] == 'x' && "--xauthority"@[3] == 'a',
        "--parent-wid"@.len() == 12 && "--parent-wid"@[0] == '-' && "--parent-wid"@[1] == '-' && "--parent-wid"@[2] == 'p' && "--parent-wid"@[3] == 'a',
        "-W"@.len() == 2 && "-W"@[0] == '-' && "-W"@[1] == 'W',
        "--no-global-grab"@.len() == 16 && "--no-global-grab"@[0] == '-' && "--no-global-grab"@[1] == '-' && "--no-global-grab"@[2] == 'n' && "--no-global-grab"@[3] == 'o',
        "-g"@.len() == 2 && "-g"@[0] == '-' && "-g"@[1] == 'g',
        "--timeout="@.len() == 10 && "--timeout="@[0] == '-' && "--timeout="@[1] == '-' && "--timeout="@[2] == 't' && "--timeout="@[3] == 'i',
{
    reveal_strlit("--debug");
    reveal_strlit("-d");
    reveal_strlit("--version");
    reveal_strlit("--help");
    reveal_strlit("--timeout");
    reveal_strlit("-o");
    reveal_strlit("--display");
    reveal_strlit("-D");
    reveal_strlit("--ttyname");
    reveal_strlit("-T");
    reveal_strlit("--ttytype");
    reveal_strlit("-N");
    reveal_strlit("--lc-ctype");
    reveal_strlit("-C");
    reveal_strlit("--lc-messages");
    reveal_strlit("-M");
    reveal_strlit("--colors");
    reveal_strlit("--xauthority");
    reveal_strlit("--parent-wid");
    reveal_strlit("-W");
    reveal_strlit("--no-global-grab");
    reveal_strlit("-g");
    reveal_strlit("--timeout=");
}

/// How each option is read, whatever surrounds it: `--debug`/`-d`,
/// `--version` and `--help` set their flag; `--timeout N` and `-o N` take
/// the next argument as the timeout (0 when it is not an `i32`), and a last
/// `--timeout` without value changes nothing; `--timeout=N` and `-oN` (with
/// `N` not empty) take the rest of the argument; a standard option that
/// takes a value swallows the next argument, even one that looks like an
/// option; `--no-global-grab`/`-g` and unknown words change nothing.
pub proof fn lemma_args_options(prog: Seq<char>, n: Seq<char>, opt: Seq<char>)
    ensures
        args_from(seq![prog], 1, no_args()) == no_args(),
        args_from(seq![prog, "--debug"@], 1, no_args()) == (Args { debug: true, ..no_args() }),
        args_from(seq![prog, "-d"@], 1, no_args()) == (Args { debug: true, ..no_args() }),
        args_from(seq![prog, "--version"@], 1, no_args()) == (Args { version: true, ..no_args() }),
        args_from(seq![prog, "--help"@], 1, no_args()) == (Args { help: true, ..no_args() }),
        args_from(seq![prog, "--timeout"@, n], 1, no_args()) == (Args {
            timeout: parse_i32_or_zero(n),
            ..no_args()
        }),
        args_from(seq![prog, "-o"@, n], 1, no_args()) == (Args {
            timeout: parse_i32_or_zero(n),
            ..no_args()
        }),
        args_from(seq![prog, "--timeout"@], 1, no_args()) == no_args(),
        args_from(seq![prog, "--timeout="@ + n], 1, no_args()) == (Args {
            timeout: parse_i32_or_zero(n),
            ..no_args()
        }),
        n.len() > 0 ==> args_from(seq![prog, "-o"@ + n], 1, no_args()) == (Args {
            timeout: parse_i32_or_zero(n),
            ..no_args()
        }),
        is_ignored_valued_option(opt) ==> args_from(seq![prog, opt, "--debug"@], 1, no_args())
            == no_args(),
        args_from(seq![prog, "--no-global-grab"@, "--debug"@], 1, no_args()) == (Args {
            debug: true,
            ..no_args()
        }),
        args_from(seq![prog, "-g"@, "--debug"@], 1, no_args()) == (Args {
            debug: true,
            ..no_args()
        }),
{
    lemma_option_words();
    reveal_with_fuel(args_from, 4);
    let t = "--timeout="@ + n;
    assert(t.take("--timeout="@.len() as int) =~= "--timeout="@);
    assert(t.skip("--timeout="@.len() as int) =~= n);
    let o = "-o"@ + n;
    assert(o.take("-o"@.len() as int) =~= "-o"@);
    assert(o.skip(2) =~= n);
    assert(o[1] == 'o');
    assert(t[0] == '-' && t[1] == '-' && t[2] == 't' && t[3] == 'i');
}

/* Replies */

/// What the pinentry answers a request with.
#[derive(Debug)]
pub enum Reply {
    /// `OK`.
    Ack,
    /// `D <data>`, then `OK`.
    Data(String),
    /// `ERR ...`.
    Fail(Error),
}

/// A [`Reply`] with its text as characters.
pub enum ReplyView {
    Ack,
    Data(Seq<char>),
    Fail(u16, Source, Seq<char>),
}

impl View for Reply {
    type V = ReplyView;

    open spec fn view(&self) -> ReplyView {
        match self {
            Reply::Ack => ReplyView::Ack,
            Reply::Data(d) => ReplyView::Data(d@),
            Reply::Fail(e) => ReplyView::Fail(e.code, e.source, e.message@),
        }
    }
}

/// The result of showing a modal: the plugin's response (its type and
/// value), or the text of the error that kept it from answering.
pub open spec fn outcome_view(o: Result<Response, String>) -> Result<
    (Seq<char>, Seq<char>),
    Seq<char>,
> {
    match o {
        Ok(r) => Ok((r.kind@, r.value@)),
        Err(e) => Err(e@),
    }
}

pub open spec fn timeout_reply() -> ReplyView {
    ReplyView::Fail(62, Source::Pinentry, "Timeout"@)
}

pub open spec fn canceled_reply() -> ReplyView {
    ReplyView::Fail(99, Source::Pinentry, "Operation cancelled"@)
}

pub open spec fn not_confirmed_reply() -> ReplyView {
    ReplyView::Fail(114, Source::Pinentry, "Operation not confirmed"@)
}

pub open spec fn general_reply(msg: Seq<char>) -> ReplyView {
    ReplyView::Fail(49, Source::Pinentry, msg)
}

/// GETPIN: a `pin` response sends its value, `cancel` and `timeout` give
/// the canonical errors, any other response type is a general error
/// "unexpected response", and a failure to get a response is a general
/// error with that failure's text.
pub open spec fn pin_reply(o: Result<(Seq<char>, Seq<char>), Seq<char>>) -> ReplyView {
    match o {
        Ok((kind, value)) => if kind == "pin"@ {
            ReplyView::Data(value)
        } else if kind == "cancel"@ {
            canceled_reply()
        } else if kind == "timeout"@ {
            timeout_reply()
        } else {
            general_reply("unexpected response"@)
        },
        Err(e) => general_reply(e),
    }
}

/// CONFIRM: `ok` is `OK`; `cancel`, `timeout` and `notok` give the
/// canonical errors; anything else is handled as for GETPIN.
pub open spec fn confirm_reply(o: Result<(Seq<char>, Seq<char>), Seq<char>>) -> ReplyView {
    match o {
        Ok((kind, value)) => if kind == "ok"@ {
            ReplyView::Ack
        } else if kind == "cancel"@ {
            canceled_reply()
        } else if kind == "timeout"@ {
            timeout_reply()
        } else if kind == "notok"@ {
            not_confirmed_reply()
        } else {
            general_reply("unexpected response"@)
        },
        Err(e) => general_reply(e),
    }
}

/// MESSAGE: `ok` is `OK`, `timeout` the canonical error, anything else is
/// handled as for GETPIN.
pub open spec fn message_reply(o: Result<(Seq<char>, Seq<char>), Seq<char>>) -> ReplyView {
    match o {
        Ok((kind, value)) => if kind == "ok"@ {
            ReplyView::Ack
        } else if kind == "timeout"@ {
            timeout_reply()
        } else {
            general_reply("unexpected response"@)
        },
        Err(e) => general_reply(e),
    }
}

fn unexpected_response() -> (r: Reply)
    ensures
        r@ == general_reply("unexpected response"@),
{
    Reply::Fail(Error::general().with_message("unexpected response"))
}

fn failure_reply(e: &String) -> (r: Reply)
    ensures
        r@ == general_reply(e@),
{
    Reply::Fail(Error::general().with_message(e.as_str()))
}

/// The answer to GETPIN for the outcome of the `getpin` modal.
pub fn handle_get_pin(outcome: &Result<Response, String>) -> (r: Reply)
    ensures
        r@ == pin_reply(outcome_view(*outcome)),
{
    match outcome {
        Ok(resp) => {
            let kind = resp.kind.as_str();
            if str_eq(kind, "pin") {
                Reply::Data(resp.value.clone())
            } else if str_eq(kind, "cancel") {
                Reply::Fail(Error::canceled())
            } else if str_eq(kind, "timeout") {
                Reply::Fail(Error::timeout())
            } else {
                unexpected_response()
            }
        },
        Err(e) => failure_reply(e),
    }
}

/// The kind of modal CONFIRM shows: a one-button message or a confirmation.
pub fn confirm_kind(one_button: bool) -> (k: &'static str)
    ensures
        k@ == (if one_button {
            "message"@
        } else {
            "confirm"@
        }),
{
    if one_button {
        "message"
    } else {
        "confirm"
    }
}

/// The answer to CONFIRM for the outcome of its modal.
pub fn handle_confirm(outcome: &Result<Response, String>) -> (r: Reply)
    ensures
        r@ == confirm_reply(outcome_view(*outcome)),
{
    match outcome {
        Ok(resp) => {
            let kind = resp.kind.as_str();
            if str_eq(kind, "ok") {
                Reply::Ack
            } else if str_eq(kind, "cancel") {
                Reply::Fail(Error::canceled())
            } else if str_eq(kind, "timeout") {
                Reply::Fail(Error::timeout())
            } else if str_eq(kind, "notok") {
                Reply::Fail(Error::not_confirmed())
            } else {
                unexpected_response()
            }
        },
        Err(e) => failure_reply(e),
    }
}

/// The answer to MESSAGE for the outcome of the `message` modal.
pub fn handle_message(outcome: &Result<Response, String>) -> (r: Reply)
    ensures
        r@ == message_reply(outcome_view(*outcome)),
{
    match outcome {
        Ok(resp) => {
            let kind = resp.kind.as_str();
            if str_eq(kind, "ok") {
                Reply::Ack
            } else if str_eq(kind, "timeout") {
                Reply::Fail(Error::timeout())
            } else {
                unexpected_response()
            }
        },
        Err(e) => failure_reply(e),
    }
}

/// GETINFO: `pid` sends the process id in decimal, `version` the given
/// version, `flavor` sends `dms`, `ttyinfo` an empty value; anything else is
/// just `OK`.
pub open spec fn get_info_reply(param: Seq<char>, pid: u32, version: Seq<char>) -> ReplyView {
    if param == "pid"@ {
        ReplyView::Data(decimal(pid as nat))
    } else if param == "version"@ {
        ReplyView::Data(version)
    } else if param == "flavor"@ {
        ReplyView::Data("dms"@)
    } else if param == "ttyinfo"@ {
        ReplyView::Data(seq![])
    } else {
        ReplyView::Ack
    }
}

/// The answer to `GETINFO <param>` for a process with id `pid` and version
/// `version`.
pub fn handle_get_info(param: &str, pid: u32, version: &str) -> (r: Reply)
    ensures
        r@ == get_info_reply(param@, pid, version@),
{
    if str_eq(param, "pid") {
        let mut s = String::new();
        push_decimal(&mut s, pid as u64);
        assert(s@ =~= decimal(pid as nat));
        Reply::Data(s)
    } else if str_eq(param, "version") {
        Reply::Data(version.to_owned())
    } else if str_eq(param, "flavor") {
        Reply::Data("dms".to_owned())
    } else if str_eq(param, "ttyinfo") {
        Reply::Data(String::new())
    } else {
        Reply::Ack
    }
}

proof fn lemma_reply_kinds()
    ensures
        "pin"@.len() == 3,
        "cancel"@.len() == 6,
        "timeout"@.len() == 7,
        "ok"@.len() == 2,
        "notok"@.len() == 5,
{
    reveal_strlit("pin");
    reveal_strlit("cancel");
    reveal_strlit("timeout");
    reveal_strlit("ok");
    reveal_strlit("notok");
}

/// GETPIN's answer for every response: a `pin` response is answered with
/// exactly its value, whatever that value is; `cancel` with error 99
/// "Operation cancelled" and `timeout` with error 62 "Timeout" (source
/// Pinentry); any other response type with the general error 49
/// "unexpected response"; and when no response was obtained, with the
/// general error 49 carrying the failure's text.
pub proof fn lemma_pin_replies(kind: Seq<char>, value: Seq<char>, failure: Seq<char>)
    ensures
        pin_reply(Ok(("pin"@, value))) == ReplyView::Data(value),
        pin_reply(Ok(("cancel"@, value))) == ReplyView::Fail(
            99,
            Source::Pinentry,
            "Operation cancelled"@,
        ),
        pin_reply(Ok(("timeout"@, value))) == ReplyView::Fail(62, Source::Pinentry, "Timeout"@),
        kind != "pin"@ && kind != "cancel"@ && kind != "timeout"@ ==> pin_reply(
            Ok((kind, value)),
        ) == ReplyView::Fail(49, Source::Pinentry, "unexpected response"@),
        pin_reply(Err(failure)) == ReplyView::Fail(49, Source::Pinentry, failure),
{
    lemma_reply_kinds();
}

/// The passphrase is sent only for a `pin` response, and it is that
/// response's value: a GETPIN answer carrying data carries exactly the value
/// the plugin returned.
pub proof fn lemma_pin_data_is_the_value(o: Result<(Seq<char>, Seq<char>), Seq<char>>, d: Seq<char>)
    requires
        pin_reply(o) == ReplyView::Data(d),
    ensures
        o == Ok::<(Seq<char>, Seq<char>), Seq<char>>(("pin"@, d)),
{
}

/// CONFIRM's answer for every response: `ok` is `OK`; `cancel`, `timeout`
/// and `notok` give errors 99, 62 and 114 (source Pinentry) with their
/// canonical messages; any other response type the general error 49
/// "unexpected response"; no response the general error 49 carrying the
/// failure's text. CONFIRM never sends data.
pub proof fn lemma_confirm_replies(kind: Seq<char>, value: Seq<char>, failure: Seq<char>)
    ensures
        confirm_reply(Ok(("ok"@, value))) == ReplyView::Ack,
        confirm_reply(Ok(("cancel"@, value))) == ReplyView::Fail(
            99,
            Source::Pinentry,
            "Operation cancelled"@,
        ),
        confirm_reply(Ok(("timeout"@, value))) == ReplyView::Fail(
            62,
            Source::Pinentry,
            "Timeout"@,
        ),
        confirm_reply(Ok(("notok"@, value))) == ReplyView::Fail(
            114,
            Source::Pinentry,
            "Operation not confirmed"@,
        ),
        kind != "ok"@ && kind != "cancel"@ && kind != "timeout"@ && kind != "notok"@
            ==> confirm_reply(Ok((kind, value))) == ReplyView::Fail(
            49,
            Source::Pinentry,
            "unexpected response"@,
        ),
        confirm_reply(Err(failure)) == ReplyView::Fail(49, Source::Pinentry, failure),
        !(confirm_reply(Ok((kind, value))) is Data),
{
    lemma_reply_kinds();
}

/// MESSAGE's answer for every response: `ok` is `OK`, `timeout` error 62
/// "Timeout"; any other response type the general error 49 "unexpected
/// response"; no response the general error 49 carrying the failure's text.
/// MESSAGE never sends data.
pub proof fn lemma_message_replies(kind: Seq<char>, value: Seq<char>, failure: Seq<char>)
    ensures
        message_reply(Ok(("ok"@, value))) == ReplyView::Ack,
        message_reply(Ok(("timeout"@, value))) == ReplyView::Fail(
            62,
            Source::Pinentry,
            "Timeout"@,
        ),
        kind != "ok"@ && kind != "timeout"@ ==> message_reply(Ok((kind, value)))
            == ReplyView::Fail(49, Source::Pinentry, "unexpected response"@),
        message_reply(Err(failure)) == ReplyView::Fail(49, Source::Pinentry, failure),
        !(message_reply(Ok((kind, value))) is Data),
{
    lemma_reply_kinds();
}

/// GETINFO's answer for every parameter: `pid` sends the process id in
/// decimal, `version` the version, `flavor` sends `dms`, `ttyinfo` an empty
/// value; any other parameter is answered with a bare `OK`.
pub proof fn lemma_get_info_replies(param: Seq<char>, pid: u32, version: Seq<char>)
    ensures
        get_info_reply("pid"@, pid, version) == ReplyView::Data(decimal(pid as nat)),
        get_info_reply("version"@, pid, version) == ReplyView::Data(version),
        get_info_reply("flavor"@, pid, version) == ReplyView::Data("dms"@),
        get_info_reply("ttyinfo"@, pid, version) == ReplyView::Data(Seq::<char>::empty()),
        param != "pid"@ && param != "version"@ && param != "flavor"@ && param != "ttyinfo"@
            ==> get_info_reply(param, pid, version) == ReplyView::Ack,
{
    reveal_strlit("pid");
    reveal_strlit("version");
    reveal_strlit("flavor");
    reveal_strlit("ttyinfo");
    assert("version"@.len() == 7 && "version"@[0] == 'v');
    assert("ttyinfo"@.len() == 7 && "ttyinfo"@[0] == 't');
    assert("pid"@.len() == 3 && "flavor"@.len() == 6);
}

/* The command loop */

/// What the binary does for a command, once the session has taken it.
#[derive(Clone, Copy, Debug, PartialEq, Eq, Structural)]
pub enum Action {
    /// Show the `getpin` modal, answer with [`handle_get_pin`], then call
    /// [`Session::pin_done`].
    ShowPin,
    /// Show the modal of kind [`confirm_kind`] and answer with
    /// [`handle_confirm`].
    ShowConfirm { one_button: bool },
    /// Show the `message` modal and answer with [`handle_message`].
    ShowMessage,
    /// Answer with [`handle_get_info`].
    GetInfo,
    /// Answer `OK closing connection` and stop.
    Close,
    /// Answer `OK`.
    Ack,
}

/// The dialog state and action after the command `name param`: GETPIN,
/// CONFIRM (one button when the parameter is `--one-button`), MESSAGE,
/// GETINFO and BYE leave the state as it is; RESET starts over from a fresh
/// state with the command-line timeout; NOP and every other command are
/// acknowledged, the other commands after they are applied to the state.
pub open spec fn session_step(
    s: DialogState,
    default_timeout: i32,
    name: Seq<char>,
    param: Seq<char>,
) -> (DialogState, Action) {
    if name == "GETPIN"@ {
        (s, Action::ShowPin)
    } else if name == "CONFIRM"@ {
        (s, Action::ShowConfirm { one_button: param == "--one-button"@ })
    } else if name == "MESSAGE"@ {
        (s, Action::ShowMessage)
    } else if name == "GETINFO"@ {
        (s, Action::GetInfo)
    } else if name == "BYE"@ {
        (s, Action::Close)
    } else if name == "RESET"@ {
        (fresh_state(default_timeout), Action::Ack)
    } else if name == "NOP"@ {
        (s, Action::Ack)
    } else {
        (command_applied(s, name, param).0, Action::Ack)
    }
}

/// RESET forgets every earlier command: whatever the dialog state, after
/// RESET it is the state a new session starts with, and it is acknowledged.
pub proof fn lemma_reset_restarts(s: DialogState, default_timeout: i32, param: Seq<char>)
    ensures
        session_step(s, default_timeout, "RESET"@, param) == (
            fresh_state(default_timeout),
            Action::Ack,
        ),
{
    reveal_strlit("RESET");
    reveal_strlit("GETPIN");
    reveal_strlit("CONFIRM");
    reveal_strlit("MESSAGE");
    reveal_strlit("GETINFO");
    reveal_strlit("BYE");
    assert("RESET"@.len() == 5);
    assert("RESET"@ != "GETPIN"@ && "RESET"@ != "CONFIRM"@ && "RESET"@ != "MESSAGE"@);
    assert("RESET"@ != "GETINFO"@ && "RESET"@ != "BYE"@);
}

proof fn lemma_session_names()
    ensures
        "GETPIN"@.len() == 6,
        "CONFIRM"@.len() == 7 && "CONFIRM"@[0] == 'C',
        "MESSAGE"@.len() == 7 && "MESSAGE"@[0] == 'M',
        "GETINFO"@.len() == 7 && "GETINFO"@[0] == 'G',
        "BYE"@.len() == 3 && "BYE"@[0] == 'B',
        "RESET"@.len() == 5,
        "NOP"@.len() == 3 && "NOP"@[0] == 'N',
{
    reveal_strlit("GETPIN");
    reveal_strlit("CONFIRM");
    reveal_strlit("MESSAGE");
    reveal_strlit("GETINFO");
    reveal_strlit("BYE");
    reveal_strlit("RESET");
    reveal_strlit("NOP");
}

/// Only RESET and the commands the dialog state records change the state:
/// GETPIN, CONFIRM, MESSAGE, GETINFO, BYE and NOP leave it exactly as it was
/// (the GETPIN modal still sees the error banner; it is cleared only after
/// the attempt, by `pin_done`), and each asks for its own action; CONFIRM
/// asks for one button exactly when its parameter is `--one-button`.
pub proof fn lemma_session_dispatch(s: DialogState, default_timeout: i32, param: Seq<char>)
    ensures
        session_step(s, default_timeout, "GETPIN"@, param) == (s, Action::ShowPin),
        session_step(s, default_timeout, "CONFIRM"@, param) == (
            s,
            Action::ShowConfirm { one_button: param == "--one-button"@ },
        ),
        session_step(s, default_timeout, "MESSAGE"@, param) == (s, Action::ShowMessage),
        session_step(s, default_timeout, "GETINFO"@, param) == (s, Action::GetInfo),
        session_step(s, default_timeout, "BYE"@, param) == (s, Action::Close),
        session_step(s, default_timeout, "NOP"@, param) == (s, Action::Ack),
{
    lemma_session_names();
}

/// Every other command is acknowledged and changes the dialog state exactly
/// as `State::apply_command` does.
pub proof fn lemma_session_applies_other_commands(
    s: DialogState,
    default_timeout: i32,
    name: Seq<char>,
    param: Seq<char>,
)
    requires
        name != "GETPIN"@,
        name != "CONFIRM"@,
        name != "MESSAGE"@,
        name != "GETINFO"@,
        name != "BYE"@,
        name != "RESET"@,
        name != "NOP"@,
    ensures
        session_step(s, default_timeout, name, param) == (
            command_applied(s, name, param).0,
            Action::Ack,
        ),
{
}

/// The pinentry's side of one Assuan connection.
pub struct Session {
    pub state: State,
    pub default_timeout: i32,
}

impl Session {
    /// A session whose dialog state starts fresh with the command-line
    /// timeout.
    pub fn new(default_timeout: i32) -> (s: Session)
        ensures
            s.state@ == fresh_state(default_timeout),
            s.default_timeout == default_timeout,
    {
        Session { state: State::with_timeout(default_timeout), default_timeout }
    }

    /// Takes one command: updates the dialog state and says what to do.
    pub fn on_command(&mut self, cmd: &Command) -> (a: Action)
        ensures
            final(self).default_timeout == old(self).default_timeout,
            (final(self).state@, a) == session_step(
                old(self).state@,
                old(self).default_timeout,
                cmd.name@,
                cmd.param@,
            ),
    {
        let name = cmd.name.as_str();
        if str_eq(name, "GETPIN") {
            Action::ShowPin
        } else if str_eq(name, "CONFIRM") {
            Action::ShowConfirm { one_button: str_eq(cmd.param.as_str(), "--one-button") }
        } else if str_eq(name, "MESSAGE") {
            Action::ShowMessage
        } else if str_eq(name, "GETINFO") {
            Action::GetInfo
        } else if str_eq(name, "BYE") {
            Action::Close
        } else if str_eq(name, "RESET") {
            self.state = State::with_timeout(self.default_timeout);
            Action::Ack
        } else if str_eq(name, "NOP") {
            Action::Ack
        } else {
            let _ = self.state.apply_command(cmd);
            Action::Ack
        }
    }

    /// After a PIN attempt: the error banner is cleared.
    pub fn pin_done(&mut self)
        ensures
            final(self).default_timeout == old(self).default_timeout,
            final(self).state@ == (DialogState { error: seq![], ..old(self).state@ }),
    {
        self.state.reset();
    }
}

} // verus!
