//! The pinentry side of the Assuan protocol: a command-line reader, an
//! `OK`/`D`/`ERR`/`#` writer, the dialog [`State`] built up by `SET*` and
//! `OPTION` commands, and the canonical libgpg-error codes.
use std::io::{self, BufRead, Write};

use crate::percent::{
    percent_decode, percent_encode, spec_percent_decode, spec_percent_encode, unescape,
};
use crate::text::{
    ascii_lower, ascii_upper, chars_eq_str, chars_of, chars_range, decimal, find_char,
    is_first_index, lemma_encode_utf8_concat,
    lossy_utf8, parse_i32, parse_i32_or_zero, push_decimal, push_str, split_once,
    str_eq, string_from_chars, to_ascii_lower, to_ascii_upper, trim, trim_chars, utf8_lossy,
};
use vstd::prelude::*;
use vstd::utf8::*;

verus! {

/// `std::io::Error`, carried through as it is.
#[verifier::external_type_specification]
#[verifier::external_body]
pub struct ExIoError(std::io::Error);

/// Longest command line kept; longer lines are cut to this many bytes.
pub const MAX_LINE_LEN: usize = 1000;

/* Dialog state */

/// Accumulated pinentry dialog state populated from Assuan SET* / OPTION
/// commands and consumed by GETPIN / CONFIRM / MESSAGE.
#[derive(Clone, Debug)]
pub struct State {
    pub title: String,
    pub desc: String,
    pub prompt: String,
    pub error: String,
    pub ok_label: String,
    pub cancel_label: String,
    pub not_ok_label: String,
    pub key_info: String,
    pub timeout: i32,
    pub repeat: bool,
    pub repeat_error: String,
    // OPTION values (mostly informational for a GUI pinentry)
    pub grab: bool,
    pub tty_name: String,
    pub tty_type: String,
    pub lc_ctype: String,
    pub display: String,
}

/// The contents of a [`State`], with each text field as its characters.
pub struct DialogState {
    pub title: Seq<char>,
    pub desc: Seq<char>,
    pub prompt: Seq<char>,
    pub error: Seq<char>,
    pub ok_label: Seq<char>,
    pub cancel_label: Seq<char>,
    pub not_ok_label: Seq<char>,
    pub key_info: Seq<char>,
    pub timeout: i32,
    pub repeat: bool,
    pub repeat_error: Seq<char>,
    pub grab: bool,
    pub tty_name: Seq<char>,
    pub tty_type: Seq<char>,
    pub lc_ctype: Seq<char>,
    pub display: Seq<char>,
}

impl View for State {
    type V = DialogState;

    open spec fn view(&self) -> DialogState {
        DialogState {
            title: self.title@,
            desc: self.desc@,
            prompt: self.prompt@,
            error: self.error@,
            ok_label: self.ok_label@,
            cancel_label: self.cancel_label@,
            not_ok_label: self.not_ok_label@,
            key_info: self.key_info@,
            timeout: self.timeout,
            repeat: self.repeat,
            repeat_error: self.repeat_error@,
            grab: self.grab,
            tty_name: self.tty_name@,
            tty_type: self.tty_type@,
            lc_ctype: self.lc_ctype@,
            display: self.display@,
        }
    }
}

/// A fresh dialog state: every text empty, every flag off, and the given
/// timeout.
pub open spec fn fresh_state(timeout: i32) -> DialogState {
    DialogState {
        title: seq![],
        desc: seq![],
        prompt: seq![],
        error: seq![],
        ok_label: seq![],
        cancel_label: seq![],
        not_ok_label: seq![],
        key_info: seq![],
        timeout: timeout,
        repeat: false,
        repeat_error: seq![],
        grab: false,
        tty_name: seq![],
        tty_type: seq![],
        lc_ctype: seq![],
        display: seq![],
    }
}

/// A fresh state has every text empty, `repeat` and `grab` off, and the
/// given timeout.
pub proof fn lemma_fresh_state(timeout: i32)
    ensures
        ({
            let f = fresh_state(timeout);
            &&& f.timeout == timeout
            &&& !f.repeat && !f.grab
            &&& f.title.len() == 0 && f.desc.len() == 0 && f.prompt.len() == 0
            &&& f.error.len() == 0 && f.ok_label.len() == 0 && f.cancel_label.len() == 0
            &&& f.not_ok_label.len() == 0 && f.key_info.len() == 0
            &&& f.repeat_error.len() == 0
            &&& f.tty_name.len() == 0 && f.tty_type.len() == 0 && f.lc_ctype.len() == 0
            &&& f.display.len() == 0
        }),
{
}

/// The state after `OPTION <param>` (with `param` already decoded): the key
/// is the text before the first `=` (compared ignoring ASCII case), the
/// value the text after it (empty without `=`); unknown keys change nothing.
pub open spec fn option_applied(s: DialogState, param: Seq<char>) -> DialogState {
    let (key, val) = match split_once(param, '=') {
        Some((k, v)) => (k, v),
        None => (param, Seq::<char>::empty()),
    };
    let k = ascii_lower(key);
    if k == "grab"@ {
        DialogState { grab: true, ..s }
    } else if k == "no-grab"@ {
        DialogState { grab: false, ..s }
    } else if k == "ttyname"@ {
        DialogState { tty_name: val, ..s }
    } else if k == "ttytype"@ {
        DialogState { tty_type: val, ..s }
    } else if k == "lc-ctype"@ {
        DialogState { lc_ctype: val, ..s }
    } else if k == "display"@ {
        DialogState { display: val, ..s }
    } else {
        s
    }
}

/// The state after the command `name param`, and whether the command is one
/// that the state records (the `SET*` commands and `OPTION`). The parameter
/// is percent-decoded first; `SETTIMEOUT` takes the trimmed parameter as an
/// `i32`, 0 when it is not one.
pub open spec fn command_applied(s: DialogState, name: Seq<char>, param: Seq<char>) -> (
    DialogState,
    bool,
) {
    let p = spec_percent_decode(param);
    if name == "SETTITLE"@ {
        (DialogState { title: p, ..s }, true)
    } else if name == "SETDESC"@ {
        (DialogState { desc: p, ..s }, true)
    } else if name == "SETPROMPT"@ {
        (DialogState { prompt: p, ..s }, true)
    } else if name == "SETERROR"@ {
        (DialogState { error: p, ..s }, true)
    } else if name == "SETOK"@ {
        (DialogState { ok_label: p, ..s }, true)
    } else if name == "SETCANCEL"@ {
        (DialogState { cancel_label: p, ..s }, true)
    } else if name == "SETNOTOK"@ {
        (DialogState { not_ok_label: p, ..s }, true)
    } else if name == "SETKEYINFO"@ {
        (DialogState { key_info: p, ..s }, true)
    } else if name == "SETTIMEOUT"@ {
        (DialogState { timeout: parse_i32_or_zero(trim(p)), ..s }, true)
    } else if name == "SETREPEAT"@ {
        (DialogState { repeat: true, repeat_error: p, ..s }, true)
    } else if name == "OPTION"@ {
        (option_applied(s, p), true)
    } else {
        (s, false)
    }
}

/// A resent command changes nothing more: applying the same command twice
/// leaves the state as applying it once does, and is recognized alike.
pub proof fn lemma_apply_command_idempotent(s: DialogState, name: Seq<char>, param: Seq<char>)
    ensures
        command_applied(command_applied(s, name, param).0, name, param) == command_applied(
            s,
            name,
            param,
        ),
{
}

/// Lengths and fourth characters of the command names `command_applied`
/// tells apart; no two names agree on both.
proof fn lemma_command_names()
    ensures
        "SETTITLE"@.len() == 8 && "SETTITLE"@[3] == 'T',
        "SETDESC"@.len() == 7 && "SETDESC"@[3] == 'D',
        "SETPROMPT"@.len() == 9 && "SETPROMPT"@[3] == 'P',
        "SETERROR"@.len() == 8 && "SETERROR"@[3] == 'E',
        "SETOK"@.len() == 5 && "SETOK"@[3] == 'O',
        "SETCANCEL"@.len() == 9 && "SETCANCEL"@[3] == 'C',
        "SETNOTOK"@.len() == 8 && "SETNOTOK"@[3] == 'N',
        "SETKEYINFO"@.len() == 10 && "SETKEYINFO"@[3] == 'K',
        "SETTIMEOUT"@.len() == 10 && "SETTIMEOUT"@[3] == 'T',
        "SETREPEAT"@.len() == 9 && "SETREPEAT"@[3] == 'R',
        "OPTION"@.len() == 6 && "OPTION"@[3] == 'I',
{
    reveal_strlit("SETTITLE");
    reveal_strlit("SETDESC");
    reveal_strlit("SETPROMPT");
    reveal_strlit("SETERROR");
    reveal_strlit("SETOK");
    reveal_strlit("SETCANCEL");
    reveal_strlit("SETNOTOK");
    reveal_strlit("SETKEYINFO");
    reveal_strlit("SETTIMEOUT");
    reveal_strlit("SETREPEAT");
    reveal_strlit("OPTION");
}

/// The `SET*` commands store their percent-decoded parameter: whatever the
/// state before, each is recognized, and afterwards its field holds
/// `spec_percent_decode(param)` (for `SETTIMEOUT`, that text trimmed and read
/// as an `i32`, 0 when it is not one; `SETREPEAT` also turns `repeat` on).
pub proof fn lemma_set_commands_store_decoded_param(s: DialogState, param: Seq<char>)
    ensures
        ({
            let p = spec_percent_decode(param);
            &&& command_applied(s, "SETTITLE"@, param).1
            &&& command_applied(s, "SETTITLE"@, param).0.title == p
            &&& command_applied(s, "SETDESC"@, param).1
            &&& command_applied(s, "SETDESC"@, param).0.desc == p
            &&& command_applied(s, "SETPROMPT"@, param).1
            &&& command_applied(s, "SETPROMPT"@, param).0.prompt == p
            &&& command_applied(s, "SETERROR"@, param).1
            &&& command_applied(s, "SETERROR"@, param).0.error == p
            &&& command_applied(s, "SETOK"@, param).1
            &&& command_applied(s, "SETOK"@, param).0.ok_label == p
            &&& command_applied(s, "SETCANCEL"@, param).1
            &&& command_applied(s, "SETCANCEL"@, param).0.cancel_label == p
            &&& command_applied(s, "SETNOTOK"@, param).1
            &&& command_applied(s, "SETNOTOK"@, param).0.not_ok_label == p
            &&& command_applied(s, "SETKEYINFO"@, param).1
            &&& command_applied(s, "SETKEYINFO"@, param).0.key_info == p
            &&& command_applied(s, "SETTIMEOUT"@, param).1
            &&& command_applied(s, "SETTIMEOUT"@, param).0.timeout == parse_i32_or_zero(trim(p))
            &&& command_applied(s, "SETREPEAT"@, param).1
            &&& command_applied(s, "SETREPEAT"@, param).0.repeat
            &&& command_applied(s, "SETREPEAT"@, param).0.repeat_error == p
            &&& command_applied(s, "OPTION"@, param).1
            &&& command_applied(s, "OPTION"@, param).0 == option_applied(s, p)
        }),
{
    lemma_command_names();
}

/// Each `SET*` command changes only its own field (`SETREPEAT` its two):
/// every other part of the dialog state stays as it was.
pub proof fn lemma_set_commands_change_one_field(s: DialogState, param: Seq<char>)
    ensures
        ({
            let p = spec_percent_decode(param);
            &&& command_applied(s, "SETTITLE"@, param).0 == DialogState { title: p, ..s }
            &&& command_applied(s, "SETDESC"@, param).0 == DialogState { desc: p, ..s }
            &&& command_applied(s, "SETPROMPT"@, param).0 == DialogState { prompt: p, ..s }
            &&& command_applied(s, "SETERROR"@, param).0 == DialogState { error: p, ..s }
            &&& command_applied(s, "SETOK"@, param).0 == DialogState { ok_label: p, ..s }
            &&& command_applied(s, "SETCANCEL"@, param).0 == DialogState { cancel_label: p, ..s }
            &&& command_applied(s, "SETNOTOK"@, param).0 == DialogState { not_ok_label: p, ..s }
            &&& command_applied(s, "SETKEYINFO"@, param).0 == DialogState { key_info: p, ..s }
            &&& command_applied(s, "SETTIMEOUT"@, param).0 == DialogState {
                timeout: parse_i32_or_zero(trim(p)),
                ..s
            }
            &&& command_applied(s, "SETREPEAT"@, param).0 == DialogState {
                repeat: true,
                repeat_error: p,
                ..s
            }
        }),
{
    lemma_command_names();
}

/// A command that is neither a `SET*` command nor `OPTION` is not recorded:
/// it is reported unhandled and the state is left as it was.
pub proof fn lemma_other_commands_unrecorded(s: DialogState, name: Seq<char>, param: Seq<char>)
    requires
        name != "SETTITLE"@,
        name != "SETDESC"@,
        name != "SETPROMPT"@,
        name != "SETERROR"@,
        name != "SETOK"@,
        name != "SETCANCEL"@,
        name != "SETNOTOK"@,
        name != "SETKEYINFO"@,
        name != "SETTIMEOUT"@,
        name != "SETREPEAT"@,
        name != "OPTION"@,
    ensures
        command_applied(s, name, param) == (s, false),
{
}

proof fn lemma_split_once_at(k: Seq<char>, sep: char, v: Seq<char>)
    requires
        !k.contains(sep),
    ensures
        split_once(k + seq![sep] + v, sep) == Some((k, v)),
{
    let x = k + seq![sep] + v;
    let i = k.len() as int;
    assert(is_first_index(x, sep, i)) by {
        assert forall|j: int| 0 <= j < i implies x[j] != sep by {
            assert(x[j] == k[j]);
            if k[j] == sep {
                assert(k.contains(sep));
            }
        }
    }
    let c = choose|c: int| is_first_index(x, sep, c);
    assert(c == i) by {
        if c < i {
            assert(x[c] != sep);
        } else if c > i {
            assert(x[i] != sep);
        }
    }
    assert(x.take(i) =~= k);
    assert(x.skip(i + 1) =~= v);
}

proof fn lemma_split_once_none(k: Seq<char>, sep: char)
    requires
        !k.contains(sep),
    ensures
        split_once(k, sep) is None,
{
    if exists|i: int| is_first_index(k, sep, i) {
        let i = choose|i: int| is_first_index(k, sep, i);
        assert(k.contains(sep));
    }
}

/// `OPTION key=value`, the key compared ignoring ASCII case: `ttyname`,
/// `ttytype`, `lc-ctype` and `display` store the value (the text after the
/// first `=`) in their field and change nothing else; `grab` and `no-grab`
/// turn grabbing on and off, with or without a value.
pub proof fn lemma_option_keys(s: DialogState, key: Seq<char>, value: Seq<char>)
    requires
        !key.contains('='),
    ensures
        ({
            let p = key + seq!['='] + value;
            &&& ascii_lower(key) == "ttyname"@ ==> option_applied(s, p) == DialogState {
                tty_name: value,
                ..s
            }
            &&& ascii_lower(key) == "ttytype"@ ==> option_applied(s, p) == DialogState {
                tty_type: value,
                ..s
            }
            &&& ascii_lower(key) == "lc-ctype"@ ==> option_applied(s, p) == DialogState {
                lc_ctype: value,
                ..s
            }
            &&& ascii_lower(key) == "display"@ ==> option_applied(s, p) == DialogState {
                display: value,
                ..s
            }
            &&& ascii_lower(key) == "grab"@ ==> option_applied(s, p) == DialogState {
                grab: true,
                ..s
            }
            &&& ascii_lower(key) == "grab"@ ==> option_applied(s, key) == DialogState {
                grab: true,
                ..s
            }
            &&& ascii_lower(key) == "no-grab"@ ==> option_applied(s, p) == DialogState {
                grab: false,
                ..s
            }
            &&& ascii_lower(key) == "no-grab"@ ==> option_applied(s, key) == DialogState {
                grab: false,
                ..s
            }
        }),
{
    lemma_split_once_at(key, '=', value);
    lemma_split_once_none(key, '=');
    lemma_option_names();
}

/// Lengths and first characters of the option keys `option_applied` tells
/// apart; no two keys agree on both.
proof fn lemma_option_names()
    ensures
        "grab"@.len() == 4 && "grab"@[0] == 'g',
        "no-grab"@.len() == 7 && "no-grab"@[0] == 'n',
        "ttyname"@.len() == 7 && "ttyname"@[3] == 'n' && "ttyname"@[0] == 't',
        "ttytype"@.len() == 7 && "ttytype"@[3] == 't' && "ttytype"@[0] == 't',
        "lc-ctype"@.len() == 8,
        "display"@.len() == 7 && "display"@[0] == 'd',
{
    reveal_strlit("grab");
    reveal_strlit("no-grab");
    reveal_strlit("ttyname");
    reveal_strlit("ttytype");
    reveal_strlit("lc-ctype");
    reveal_strlit("display");
}

impl Default for State {
    fn default() -> (s: State)
        ensures
            s@ == fresh_state(0),
    {
        State::with_timeout(0)
    }
}

impl State {
    /// A fresh state whose timeout is `timeout`.
    pub fn with_timeout(timeout: i32) -> (s: State)
        ensures
            s@ == fresh_state(timeout),
    {
        State {
            title: String::new(),
            desc: String::new(),
            prompt: String::new(),
            error: String::new(),
            ok_label: String::new(),
            cancel_label: String::new(),
            not_ok_label: String::new(),
            key_info: String::new(),
            timeout: timeout,
            repeat: false,
            repeat_error: String::new(),
            grab: false,
            tty_name: String::new(),
            tty_type: String::new(),
            lc_ctype: String::new(),
            display: String::new(),
        }
    }

    /// Apply a SET*/OPTION command to the state. Returns true when `cmd` was
    /// recognized and handled.
    pub fn apply_command(&mut self, cmd: &Command) -> (handled: bool)
        ensures
            (final(self)@, handled) == command_applied(old(self)@, cmd.name@, cmd.param@),
    {
        let param = percent_decode(cmd.param.as_str());
        let name = cmd.name.as_str();
        if str_eq(name, "SETTITLE") {
            self.title = param;
        } else if str_eq(name, "SETDESC") {
            self.desc = param;
        } else if str_eq(name, "SETPROMPT") {
            self.prompt = param;
        } else if str_eq(name, "SETERROR") {
            self.error = param;
        } else if str_eq(name, "SETOK") {
            self.ok_label = param;
        } else if str_eq(name, "SETCANCEL") {
            self.cancel_label = param;
        } else if str_eq(name, "SETNOTOK") {
            self.not_ok_label = param;
        } else if str_eq(name, "SETKEYINFO") {
            self.key_info = param;
        } else if str_eq(name, "SETTIMEOUT") {
            let chars = chars_of(param.as_str());
            let trimmed = trim_chars(chars.as_slice());
            self.timeout = match parse_i32(trimmed.as_slice()) {
                Some(v) => v,
                None => 0,
            };
        } else if str_eq(name, "SETREPEAT") {
            self.repeat = true;
            self.repeat_error = param;
        } else if str_eq(name, "OPTION") {
            self.apply_option(param.as_str());
        } else {
            return false;
        }
        true
    }

    /// Apply the (decoded) parameter of an `OPTION` command.
    pub fn apply_option(&mut self, param: &str)
        ensures
            final(self)@ == option_applied(old(self)@, param@),
    {
        let chars = chars_of(param);
        let (key, val) = match find_char(chars.as_slice(), '=') {
            Some(i) => {
                assert(i < chars.len());
                let k = chars_range(chars.as_slice(), 0, i);
                let v = chars_range(chars.as_slice(), i + 1, chars.len());
                assert(k@ =~= chars@.take(i as int));
                assert(v@ =~= chars@.skip(i + 1));
                (k, v)
            },
            None => (chars, Vec::new()),
        };
        let k = to_ascii_lower(key.as_slice());
        if chars_eq_str(k.as_slice(), "grab") {
            self.grab = true;
        } else if chars_eq_str(k.as_slice(), "no-grab") {
            self.grab = false;
        } else if chars_eq_str(k.as_slice(), "ttyname") {
            self.tty_name = string_from_chars(val.as_slice());
        } else if chars_eq_str(k.as_slice(), "ttytype") {
            self.tty_type = string_from_chars(val.as_slice());
        } else if chars_eq_str(k.as_slice(), "lc-ctype") {
            self.lc_ctype = string_from_chars(val.as_slice());
        } else if chars_eq_str(k.as_slice(), "display") {
            self.display = string_from_chars(val.as_slice());
        }
    }

    /// Clear transient state (the error banner) after a PIN attempt.
    pub fn reset(&mut self)
        ensures
            final(self)@ == (DialogState { error: seq![], ..old(self)@ }),
    {
        self.error.clear();
    }
}

/* Commands and the reader */

/// A parsed Assuan command: a name and its single space-separated parameter.
#[derive(Clone, Debug)]
pub struct Command {
    pub name: String,
    pub param: String,
}

/// `b` without its trailing line feeds and carriage returns.
pub open spec fn strip_line_end(b: Seq<u8>) -> Seq<u8>
    decreases b.len(),
{
    if b.len() > 0 && (b.last() == 10 || b.last() == 13) {
        strip_line_end(b.drop_last())
    } else {
        b
    }
}

/// `b` cut to at most `MAX_LINE_LEN` bytes.
pub open spec fn cap_line(b: Seq<u8>) -> Seq<u8> {
    if b.len() > MAX_LINE_LEN {
        b.take(MAX_LINE_LEN as int)
    } else {
        b
    }
}

/// Name and parameter of a command text: split at the first space, the name
/// upper-cased (ASCII); without a space the whole text is the name and the
/// parameter is empty.
pub open spec fn command_of_text(t: Seq<char>) -> (Seq<char>, Seq<char>) {
    match split_once(t, ' ') {
        Some((n, p)) => (ascii_upper(n), p),
        None => (ascii_upper(t), seq![]),
    }
}

/// Name and parameter of the command in one raw input line: line feeds and
/// carriage returns at its end dropped, cut to `MAX_LINE_LEN` bytes, read as
/// UTF-8 the way `String::from_utf8_lossy` reads it, then split.
pub open spec fn spec_parse_command_line(raw: Seq<u8>) -> (Seq<char>, Seq<char>) {
    command_of_text(lossy_utf8(cap_line(strip_line_end(raw))))
}

proof fn lemma_strip_line_end_take(b: Seq<u8>, k: int)
    requires
        0 <= k <= b.len(),
        forall|j: int| k <= j < b.len() ==> (#[trigger] b[j] == 10 || b[j] == 13),
        k == 0 || !(b[k - 1] == 10 || b[k - 1] == 13),
    ensures
        strip_line_end(b) == b.take(k),
    decreases b.len() - k,
{
    if k == b.len() {
        assert(b.take(k) =~= b);
    } else {
        let t = b.drop_last();
        assert forall|j: int| k <= j < t.len() implies (#[trigger] t[j] == 10 || t[j] == 13) by {
            assert(t[j] == b[j]);
        }
        if k > 0 {
            assert(t[k - 1] == b[k - 1]);
        }
        lemma_strip_line_end_take(t, k);
        assert(t.take(k) =~= b.take(k));
    }
}

/// A command text is split at its first space: the name is the text before
/// it, upper-cased (ASCII only), and the parameter is everything after it,
/// kept as it is (case and later spaces included); a text without a space
/// is all name, with an empty parameter.
pub proof fn lemma_command_of_text(name: Seq<char>, rest: Seq<char>)
    requires
        !name.contains(' '),
    ensures
        command_of_text(name + seq![' '] + rest) == (ascii_upper(name), rest),
        command_of_text(name) == (ascii_upper(name), Seq::<char>::empty()),
{
    lemma_split_once_at(name, ' ', rest);
    lemma_split_once_none(name, ' ');
}

/// A raw line loses exactly its trailing line feeds and carriage returns
/// (any number, in any order), and is then kept to its first `MAX_LINE_LEN`
/// bytes.
pub proof fn lemma_line_end_and_cap(body: Seq<u8>, ending: Seq<u8>)
    requires
        forall|i: int| 0 <= i < ending.len() ==> (#[trigger] ending[i] == 10 || ending[i] == 13),
        body.len() > 0 ==> body.last() != 10 && body.last() != 13,
    ensures
        strip_line_end(body + ending) == body,
        cap_line(body).len() == if body.len() > MAX_LINE_LEN {
            MAX_LINE_LEN as int
        } else {
            body.len() as int
        },
        cap_line(body) == body.take(cap_line(body).len() as int),
{
    let x = body + ending;
    let k = body.len() as int;
    assert forall|j: int| k <= j < x.len() implies (#[trigger] x[j] == 10 || x[j] == 13) by {
        assert(x[j] == ending[j - k]);
    }
    if k > 0 {
        assert(x[k - 1] == body.last());
    }
    lemma_strip_line_end_take(x, k);
    assert(x.take(k) =~= body);
    if body.len() <= MAX_LINE_LEN {
        assert(body.take(body.len() as int) =~= body);
    }
}

/// Parses one raw input line into a command.
pub fn parse_command_line(raw: &[u8]) -> (c: Command)
    ensures
        (c.name@, c.param@) == spec_parse_command_line(raw@),
        valid_utf8(cap_line(strip_line_end(raw@))) ==> (c.name@, c.param@) == command_of_text(
            decode_utf8(cap_line(strip_line_end(raw@))),
        ),
{
    let mut k: usize = raw.len();
    while k > 0 && (raw[k - 1] == 10 || raw[k - 1] == 13)
        invariant
            k <= raw@.len(),
            forall|j: int| k <= j < raw@.len() ==> (#[trigger] raw@[j] == 10 || raw@[j] == 13),
        decreases k,
    {
        k = k - 1;
    }
    proof {
        lemma_strip_line_end_take(raw@, k as int);
    }
    if k > MAX_LINE_LEN {
        k = MAX_LINE_LEN;
    }
    let mut line: Vec<u8> = Vec::new();
    let mut i: usize = 0;
    while i < k
        invariant
            i <= k <= raw@.len(),
            line@ == raw@.take(i as int),
        decreases k - i,
    {
        line.push(raw[i]);
        assert(raw@.take(i + 1) =~= raw@.take(i as int).push(raw@[i as int]));
        i = i + 1;
    }
    assert(line@ =~= cap_line(strip_line_end(raw@)));
    let text = utf8_lossy(line.as_slice());
    let chars = chars_of(text.as_str());
    match find_char(chars.as_slice(), ' ') {
        Some(i) => {
            assert(i < chars.len());
            let n = chars_range(chars.as_slice(), 0, i);
            let p = chars_range(chars.as_slice(), i + 1, chars.len());
            assert(n@ =~= chars@.take(i as int));
            assert(p@ =~= chars@.skip(i + 1));
            let upper = to_ascii_upper(n.as_slice());
            Command { name: string_from_chars(upper.as_slice()), param: string_from_chars(p.as_slice()) }
        },
        None => {
            let upper = to_ascii_upper(chars.as_slice());
            Command { name: string_from_chars(upper.as_slice()), param: String::new() }
        },
    }
}

proof fn lemma_last_byte_not_line_break(x: Seq<char>)
    requires
        x.len() > 0,
        x.last() != '\n' && x.last() != '\r',
    ensures
        encode_utf8(x).len() > 0,
        encode_utf8(x).last() != 10 && encode_utf8(x).last() != 13,
{
    let init = x.drop_last();
    let c = x.last();
    assert(x =~= init + seq![c]);
    lemma_encode_utf8_concat(init, seq![c]);
    assert(seq![c].drop_first() =~= Seq::<char>::empty());
    reveal_with_fuel(encode_utf8, 2);
    char_is_scalar(c);
    let e = encode_scalar(c as u32);
    assert(encode_utf8(seq![c]) =~= e);
    let v = c as u32;
    assert(v < 0x80 ==> (v & 0x7F) as u8 == v as u8) by (bit_vector);
    assert(0x80u8 | (v & 0x3F) as u8 >= 0x80) by (bit_vector);
    assert(encode_utf8(x).last() == e.last());
    if v < 0x80 {
        assert(e.last() == v as u8);
        assert(v < 0x80 ==> (v as u8) as u32 == v) by (bit_vector);
        char_u32_cast(c, v);
        assert('\n' as u32 == 10 && '\r' as u32 == 13);
        char_u32_cast('\n', 10);
        char_u32_cast('\r', 13);
        assert(v != 10 && v != 13);
    } else {
        assert(e.last() == 0x80u8 | (v & 0x3F) as u8);
    }
}

/// A command line sent as `NAME param` and a line feed is read back as that
/// name and parameter, when the name is upper case without spaces, the
/// parameter does not end in a line break, and the text before the line
/// feed is at most `MAX_LINE_LEN` bytes.
pub proof fn lemma_command_line_roundtrip(name: Seq<char>, param: Seq<char>)
    requires
        !name.contains(' '),
        ascii_upper(name) == name,
        param.len() > 0 ==> param.last() != '\n' && param.last() != '\r',
        encode_utf8(name + seq![' '] + param).len() <= MAX_LINE_LEN,
    ensures
        ({
            let line = cap_line(strip_line_end(encode_utf8(name + seq![' '] + param + seq!['\n'])));
            &&& valid_utf8(line)
            &&& command_of_text(decode_utf8(line)) == (name, param)
        }),
{
    broadcast use encode_utf8_valid_utf8, encode_utf8_decode_utf8;

    let x = name + seq![' '] + param;
    lemma_encode_utf8_concat(x, seq!['\n']);
    reveal_with_fuel(encode_utf8, 2);
    assert(seq!['\n'].drop_first() =~= Seq::<char>::empty());
    let nl = '\n';
    let v = nl as u32;
    assert(v < 0x80 ==> (v & 0x7F) as u8 == v as u8) by (bit_vector);
    assert(encode_utf8(seq!['\n']) =~= seq![10u8]);
    let b = encode_utf8(x);
    let raw = b + seq![10u8];
    assert(raw.drop_last() =~= b);
    assert(x.last() == (if param.len() > 0 { param.last() } else { ' ' }));
    lemma_last_byte_not_line_break(x);
    assert(strip_line_end(b) == b);
    assert(strip_line_end(raw) == b);
    assert(cap_line(b) == b);
    let i = name.len() as int;
    assert(is_first_index(x, ' ', i)) by {
        assert forall|j: int| 0 <= j < i implies x[j] != ' ' by {
            assert(x[j] == name[j]);
            if name[j] == ' ' {
                assert(name.contains(' '));
            }
        }
    }
    let k = choose|k: int| is_first_index(x, ' ', k);
    assert(k == i) by {
        if k < i {
            assert(x[k] != ' ');
        } else if k > i {
            assert(x[i] != ' ');
        }
    }
    assert(x.take(i) =~= name);
    assert(x.skip(i + 1) =~= param);
}

/// What a read of one line tells the reader: the read's result, and the line
/// it appended to an empty buffer.
/// A failed read is relayed as it is, a read of 0 bytes (end of input) is
/// `Ok(None)`, and a read of one or more bytes is the command on that line.
pub fn command_from_read(read: io::Result<usize>, line: &[u8]) -> (r: io::Result<Option<Command>>)
    ensures
        read is Err <==> r is Err,
        read matches Err(e) ==> (r matches Err(e2) && e2 == e),
        read == Ok::<usize, io::Error>(0) <==> r matches Ok(None),
        (read matches Ok(n) && n > 0) ==> (r matches Ok(Some(c)) && (c.name@, c.param@)
            == spec_parse_command_line(line@)),
{
    match read {
        Err(e) => Err(e),
        Ok(0) => Ok(None),
        Ok(_) => Ok(Some(parse_command_line(line))),
    }
}

/// Buffered reader for Assuan command lines.
pub struct Reader<R> {
    inner: R,
    line: Vec<u8>,
    taken: Ghost<Seq<u8>>,
    failed: Ghost<bool>,
}

impl<R: BufRead> Reader<R> {
    /// The raw bytes of the last line read, line feed included.
    pub closed spec fn last_line(&self) -> Seq<u8> {
        self.line@
    }

    /// Every byte this reader has taken from its input so far, in order.
    pub closed spec fn consumed(&self) -> Seq<u8> {
        self.taken@
    }

    /// Whether the last read from the input failed.
    pub closed spec fn last_read_failed(&self) -> bool {
        self.failed@
    }

    pub fn new(inner: R) -> (r: Self)
        ensures
            r.last_line() == Seq::<u8>::empty(),
            r.consumed() == Seq::<u8>::empty(),
            !r.last_read_failed(),
    {
        Self {
            inner,
            line: Vec::with_capacity(MAX_LINE_LEN),
            taken: Ghost(Seq::empty()),
            failed: Ghost(false),
        }
    }

    /// `BufRead::read_until(b'\n', ..)` on the input, into the line buffer:
    /// takes one line from the input (up to and including the next line
    /// feed, or to the end of the input) and appends it to the buffer,
    /// returning how many bytes it appended; 0 means the input is at its end.
    /// On an error, the bytes taken before it are appended. The bytes taken
    /// are exactly the bytes appended. What the input holds is not known
    /// here.
    #[verifier::external_body]
    fn read_line(&mut self) -> (res: io::Result<usize>)
        ensures
            old(self).last_line().len() <= final(self).last_line().len(),
            final(self).last_line().take(old(self).last_line().len() as int) == old(
                self,
            ).last_line(),
            final(self).consumed() == old(self).consumed() + final(self).last_line().skip(
                old(self).last_line().len() as int,
            ),
            final(self).last_read_failed() == res is Err,
            res matches Ok(n) ==> final(self).last_line().len() == old(self).last_line().len() + n,
            res matches Ok(n) ==> forall|j: int|
                old(self).last_line().len() <= j < final(self).last_line().len() - 1
                    ==> #[trigger] final(self).last_line()[j] != 10,
    {
        self.inner.read_until(b'\n', &mut self.line)
    }

    /// Read the next command. Returns `Ok(None)` on clean EOF.
    ///
    /// Exactly one line is taken from the input: a failed read gives an
    /// error, a read at the end of the input `Ok(None)`, and any other read
    /// the command on the line it read.
    pub fn read_command(&mut self) -> (res: io::Result<Option<Command>>)
        ensures
            final(self).consumed() == old(self).consumed() + final(self).last_line(),
            !final(self).last_read_failed() ==> forall|j: int|
                0 <= j < final(self).last_line().len() - 1
                    ==> #[trigger] final(self).last_line()[j] != 10,
            res is Err <==> final(self).last_read_failed(),
            !final(self).last_read_failed() && final(self).last_line().len() == 0 ==> res matches Ok(None),
            !final(self).last_read_failed() && final(self).last_line().len() > 0 ==> (res matches Ok(
                Some(c),
            ) && (c.name@, c.param@) == spec_parse_command_line(final(self).last_line())),
            res matches Ok(None) ==> final(self).last_line().len() == 0,
    {
        self.line.clear();
        let read = self.read_line();
        assert(self.line@.skip(0) =~= self.line@);
        command_from_read(read, self.line.as_slice())
    }
}

/* Errors */

/// libgpg-error error source (only the ones we emit).
#[derive(Clone, Copy, Debug, PartialEq, Eq, Structural)]
pub enum Source {
    Unspecified,
    Pinentry,
}

/// The name libassuan prints for an error source, if it has one.
pub open spec fn source_name(src: Source) -> Option<Seq<char>> {
    match src {
        Source::Pinentry => Some("Pinentry"@),
        Source::Unspecified => None,
    }
}

/// The libgpg-error number of an error source.
pub open spec fn source_number(src: Source) -> u32 {
    match src {
        Source::Unspecified => 0,
        Source::Pinentry => 5,
    }
}

impl Source {
    pub fn name(self) -> (r: Option<&'static str>)
        ensures
            r matches Some(n) ==> source_name(self) == Some(n@),
            r is None <==> source_name(self) is None,
    {
        match self {
            Source::Pinentry => Some("Pinentry"),
            Source::Unspecified => None,
        }
    }
}

/// A GPG error: code/source (libgpg-error fields) plus human message.
#[derive(Clone, Debug)]
pub struct Error {
    pub code: u16,
    pub source: Source,
    pub message: String,
}

/// The packed integer libgpg-error puts on the wire: `(source << 24) | code`.
pub open spec fn wire_code(code: u16, src: Source) -> u32 {
    (source_number(src) * 0x100_0000 + code) as u32
}

impl Error {
    /// Build a dynamic error.
    pub fn new(code: u16, source: Source, message: &str) -> (e: Self)
        ensures
            e.code == code,
            e.source == source,
            e.message@ == message@,
    {
        Self { code, source, message: message.to_owned() }
    }

    /// Returns a copy with `message` replaced.
    pub fn with_message(&self, msg: &str) -> (e: Self)
        ensures
            e.code == self.code,
            e.source == self.source,
            e.message@ == msg@,
    {
        Self { code: self.code, source: self.source, message: msg.to_owned() }
    }

    /// Packed integer libgpg-error puts on the wire: `(source << 24) | code`.
    pub fn wire(&self) -> (w: u32)
        ensures
            w == wire_code(self.code, self.source),
            w == (source_number(self.source) << 24u32) | (self.code as u32),
    {
        let src: u32 = match self.source {
            Source::Unspecified => 0,
            Source::Pinentry => 5,
        };
        let code: u32 = self.code as u32;
        assert(src <= 5 && code < 0x10000 ==> (src << 24u32) | code == src * 0x100_0000 + code)
            by (bit_vector);
        (src << 24u32) | code
    }

    // Canonical pinentry errors.
    pub fn timeout() -> (e: Self)
        ensures
            e.code == 62,
            e.source == Source::Pinentry,
            e.message@ == "Timeout"@,
    {
        Self::new(62, Source::Pinentry, "Timeout")
    }

    pub fn canceled() -> (e: Self)
        ensures
            e.code == 99,
            e.source == Source::Pinentry,
            e.message@ == "Operation cancelled"@,
    {
        Self::new(99, Source::Pinentry, "Operation cancelled")
    }

    pub fn not_confirmed() -> (e: Self)
        ensures
            e.code == 114,
            e.source == Source::Pinentry,
            e.message@ == "Operation not confirmed"@,
    {
        Self::new(114, Source::Pinentry, "Operation not confirmed")
    }

    pub fn general() -> (e: Self)
        ensures
            e.code == 49,
            e.source == Source::Pinentry,
            e.message@ == "General error"@,
    {
        Self::new(49, Source::Pinentry, "General error")
    }
}

/* The writer */

/// `OK` or `OK <msg>`, then a line feed.
pub open spec fn ok_line(msg: Seq<char>) -> Seq<char> {
    if msg.len() == 0 {
        seq!['O', 'K', '\n']
    } else {
        seq!['O', 'K', ' '] + msg + seq!['\n']
    }
}

/// `D <percent-encoded data>`, then a line feed.
pub open spec fn data_line(data: Seq<char>) -> Seq<char> {
    seq!['D', ' '] + spec_percent_encode(data) + seq!['\n']
}

/// `# <msg>`, then a line feed.
pub open spec fn comment_line(msg: Seq<char>) -> Seq<char> {
    seq!['#', ' '] + msg + seq!['\n']
}

/// `ERR <wire code> <message>`, then ` <Source>` when the source has a name,
/// then a line feed.
pub open spec fn err_line(code: u16, src: Source, message: Seq<char>) -> Seq<char> {
    let head = seq!['E', 'R', 'R', ' '] + decimal(wire_code(code, src) as nat) + seq![' ']
        + message;
    match source_name(src) {
        Some(n) => head + seq![' ', '<'] + n + seq!['>', '\n'],
        None => head + seq!['\n'],
    }
}

/// A `D` line is a single line: its only line feed is the one that ends it,
/// and it holds no carriage return.
pub proof fn lemma_data_line_is_one_line(data: Seq<char>)
    ensures
        data_line(data).last() == '\n',
        forall|i: int|
            0 <= i < data_line(data).len() - 1 ==> #[trigger] data_line(data)[i] != '\n'
                && data_line(data)[i] != '\r',
{
    crate::percent::lemma_encode_no_line_breaks(data);
    let e = spec_percent_encode(data);
    let l = data_line(data);
    assert forall|i: int| 0 <= i < l.len() - 1 implies #[trigger] l[i] != '\n' && l[i] != '\r' by {
        if i >= 2 {
            assert(l[i] == e[i - 2]);
        }
    }
}

/// What the client reads back of a `D` line: the line is `D`, a space, a
/// payload and one line feed, and percent-decoding the payload's bytes gives
/// back exactly the UTF-8 bytes of the data sent, for any data.
pub proof fn lemma_data_line_reads_back(data: Seq<char>)
    ensures
        ({
            let l = data_line(data);
            let payload = l.subrange(2, l.len() - 1);
            &&& l.len() >= 3
            &&& l[0] == 'D' && l[1] == ' ' && l.last() == '\n'
            &&& unescape(encode_utf8(payload)) == encode_utf8(data)
            &&& decode_utf8(unescape(encode_utf8(payload))) == data
        }),
{
    crate::percent::lemma_percent_roundtrip(data);
    let l = data_line(data);
    assert(l.subrange(2, l.len() - 1) =~= spec_percent_encode(data));
}

/// The status lines: `OK` alone or `OK <msg>`, `# <msg>`, and
/// `ERR <(source << 24) | code> <message>` followed by ` <Pinentry>` for the
/// Pinentry source and by nothing for an unspecified one; each ends with a
/// line feed.
pub proof fn lemma_status_lines(msg: Seq<char>, code: u16, message: Seq<char>)
    ensures
        ok_line(Seq::<char>::empty()) == seq!['O', 'K', '\n'],
        msg.len() > 0 ==> ok_line(msg) == seq!['O', 'K', ' '] + msg + seq!['\n'],
        comment_line(msg) == seq!['#', ' '] + msg + seq!['\n'],
        err_line(code, Source::Pinentry, message) == seq!['E', 'R', 'R', ' '] + decimal(
            (5 * 0x100_0000 + code) as nat,
        ) + seq![' '] + message + seq![' ', '<'] + "Pinentry"@ + seq!['>', '\n'],
        err_line(code, Source::Unspecified, message) == seq!['E', 'R', 'R', ' '] + decimal(
            code as nat,
        ) + seq![' '] + message + seq!['\n'],
{
}

/// Writer for Assuan responses (`OK`, `D`, `ERR`, `#`).
pub struct Writer<W> {
    inner: W,
    sent: Ghost<Seq<u8>>,
    handed: Ghost<Seq<u8>>,
    flushed: Ghost<Seq<u8>>,
}

impl<W: Write> Writer<W> {
    /// The bytes of every write to the destination that completed, in order.
    pub closed spec fn written(&self) -> Seq<u8> {
        self.sent@
    }

    /// The completed writes known to have reached the destination: those
    /// made before the last successful flush.
    pub closed spec fn delivered(&self) -> Seq<u8> {
        self.flushed@
    }

    /// The bytes this writer has handed to its destination, in order,
    /// whether or not the write succeeded.
    pub closed spec fn offered(&self) -> Seq<u8> {
        self.handed@
    }

    pub fn new(inner: W) -> (w: Self)
        ensures
            w.written() == Seq::<u8>::empty(),
            w.offered() == Seq::<u8>::empty(),
            w.delivered() == Seq::<u8>::empty(),
    {
        Self {
            inner,
            sent: Ghost(Seq::empty()),
            handed: Ghost(Seq::empty()),
            flushed: Ghost(Seq::empty()),
        }
    }

    /// `Write::write_all(bytes)` on the destination: hands it exactly `bytes`,
    /// which are all written when it returns `Ok`. On an error some of them
    /// may have been written; which ones is not stated. Nothing is stated of
    /// what the destination does with them.
    #[verifier::external_body]
    fn write_bytes(&mut self, bytes: &[u8]) -> (res: io::Result<()>)
        ensures
            final(self).offered() == old(self).offered() + bytes@,
            res is Ok ==> final(self).written() == old(self).written() + bytes@,
            res is Err ==> final(self).written() == old(self).written(),
            final(self).delivered() == old(self).delivered(),
    {
        self.inner.write_all(bytes)
    }

    /// `Write::flush` on the destination: when it returns `Ok`, everything
    /// written so far has reached the destination.
    #[verifier::external_body]
    fn flush_destination(&mut self) -> (res: io::Result<()>)
        ensures
            final(self).offered() == old(self).offered(),
            final(self).written() == old(self).written(),
            res is Ok ==> final(self).delivered() == old(self).written(),
            res is Err ==> final(self).delivered() == old(self).delivered(),
    {
        self.inner.flush()
    }

    fn send_line(&mut self, line: String) -> (res: io::Result<()>)
        ensures
            final(self).offered() == old(self).offered() + encode_utf8(line@),
            res is Ok ==> final(self).written() == old(self).written() + encode_utf8(line@),
            res is Err ==> final(self).written() == old(self).written(),
            final(self).delivered() == old(self).delivered(),
    {
        self.write_bytes(line.as_str().as_bytes())
    }

    /// `OK [msg]`
    pub fn ok(&mut self, msg: &str) -> (res: io::Result<()>)
        ensures
            final(self).delivered() == old(self).delivered(),
            final(self).offered() == old(self).offered() + encode_utf8(ok_line(msg@)),
            res is Ok ==> final(self).written() == old(self).written() + encode_utf8(ok_line(msg@)),
            res is Err ==> final(self).written() == old(self).written(),
    {
        let mut line = String::new();
        line.push('O');
        line.push('K');
        if !msg.is_empty() {
            line.push(' ');
            push_str(&mut line, msg);
        }
        line.push('\n');
        assert(line@ =~= ok_line(msg@));
        self.send_line(line)
    }

    /// `D <percent-encoded-data>`
    pub fn data(&mut self, data: &str) -> (res: io::Result<()>)
        ensures
            final(self).delivered() == old(self).delivered(),
            final(self).offered() == old(self).offered() + encode_utf8(data_line(data@)),
            res is Ok ==> final(self).written() == old(self).written() + encode_utf8(
                data_line(data@),
            ),
            res is Err ==> final(self).written() == old(self).written(),
    {
        let mut line = String::new();
        line.push('D');
        line.push(' ');
        let encoded = percent_encode(data);
        push_str(&mut line, encoded.as_str());
        line.push('\n');
        assert(line@ =~= data_line(data@));
        self.send_line(line)
    }

    /// Comment line `# msg`.
    pub fn comment(&mut self, msg: &str) -> (res: io::Result<()>)
        ensures
            final(self).delivered() == old(self).delivered(),
            final(self).offered() == old(self).offered() + encode_utf8(comment_line(msg@)),
            res is Ok ==> final(self).written() == old(self).written() + encode_utf8(
                comment_line(msg@),
            ),
            res is Err ==> final(self).written() == old(self).written(),
    {
        let mut line = String::new();
        line.push('#');
        line.push(' ');
        push_str(&mut line, msg);
        line.push('\n');
        assert(line@ =~= comment_line(msg@));
        self.send_line(line)
    }

    /// `ERR <num> <msg> <Source>`, matching libassuan's canonical pinentry.
    pub fn err(&mut self, e: &Error) -> (res: io::Result<()>)
        ensures
            final(self).delivered() == old(self).delivered(),
            final(self).offered() == old(self).offered() + encode_utf8(err_line(e.code, e.source, e.message@)),
            res is Ok ==> final(self).written() == old(self).written() + encode_utf8(
                err_line(e.code, e.source, e.message@),
            ),
            res is Err ==> final(self).written() == old(self).written(),
    {
        let mut line = String::new();
        line.push('E');
        line.push('R');
        line.push('R');
        line.push(' ');
        push_decimal(&mut line, e.wire() as u64);
        line.push(' ');
        push_str(&mut line, e.message.as_str());
        match e.source.name() {
            Some(src) => {
                line.push(' ');
                line.push('<');
                push_str(&mut line, src);
                line.push('>');
                line.push('\n');
            },
            None => {
                line.push('\n');
            },
        }
        assert(line@ =~= err_line(e.code, e.source, e.message@));
        self.send_line(line)
    }

    pub fn flush(&mut self) -> (res: io::Result<()>)
        ensures
            final(self).written() == old(self).written(),
            final(self).offered() == old(self).offered(),
            res is Ok ==> final(self).delivered() == old(self).written(),
            res is Err ==> final(self).delivered() == old(self).delivered(),
    {
        self.flush_destination()
    }
}

} // verus!
