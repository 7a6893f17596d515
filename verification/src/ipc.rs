//! The decisions of the IPC bridge to the DankMaterialShell plugin: the
//! request built from the dialog state, the socket name, how long to wait
//! for the plugin, when to give up waiting, and how the reply line is
//! framed. The socket, the `dms` child process and JSON live with the binary.
use crate::assuan::State;
use crate::text::{decimal, push_decimal, push_str};
use vstd::prelude::*;
use vstd::utf8::*;

verus! {

/// Request sent to the DMS plugin to trigger the modal.
#[derive(Debug)]
pub struct Request {
    pub kind: String,
    pub socket: String,
    pub title: String,
    pub desc: String,
    pub prompt: String,
    pub error_text: String,
    pub key_info: String,
    pub repeat_error: String,
    pub ok_label: String,
    pub cancel_label: String,
    pub not_ok_label: String,
    pub timeout: i32,
    pub repeat: bool,
    pub grab: bool,
}

/// Response the plugin writes back over the socket.
#[derive(Debug)]
pub struct Response {
    pub kind: String,
    pub value: String,
}

impl Request {
    /// The request for a modal of kind `kind` (`getpin`, `confirm` or
    /// `message`) answering on `socket`, carrying the dialog state.
    pub fn from_state(kind: &str, socket: &str, state: &State) -> (r: Request)
        ensures
            r.kind@ == kind@,
            r.socket@ == socket@,
            r.title@ == state.title@,
            r.desc@ == state.desc@,
            r.prompt@ == state.prompt@,
            r.error_text@ == state.error@,
            r.key_info@ == state.key_info@,
            r.repeat_error@ == state.repeat_error@,
            r.ok_label@ == state.ok_label@,
            r.cancel_label@ == state.cancel_label@,
            r.not_ok_label@ == state.not_ok_label@,
            r.timeout == state.timeout,
            r.repeat == state.repeat,
            r.grab == state.grab,
    {
        Request {
            kind: kind.to_owned(),
            socket: socket.to_owned(),
            title: state.title.clone(),
            desc: state.desc.clone(),
            prompt: state.prompt.clone(),
            error_text: state.error.clone(),
            key_info: state.key_info.clone(),
            repeat_error: state.repeat_error.clone(),
            ok_label: state.ok_label.clone(),
            cancel_label: state.cancel_label.clone(),
            not_ok_label: state.not_ok_label.clone(),
            timeout: state.timeout,
            repeat: state.repeat,
            grab: state.grab,
        }
    }
}

/// Whether a request's `timeout` is left out of its JSON (it is when zero).
pub fn eq_int_zero(v: &i32) -> (r: bool)
    ensures
        r == (*v == 0),
{
    *v == 0
}

/* Socket naming */

/// The lower-case hex digit for `n` (0 to 15).
pub open spec fn hex_char(n: u8) -> char {
    if n < 10 {
        ((48 + n) as u8) as char
    } else {
        ((87 + n) as u8) as char
    }
}

/// Two lower-case hex digits per byte, high nibble first.
pub open spec fn hex_string(bytes: Seq<u8>) -> Seq<char>
    decreases bytes.len(),
{
    if bytes.len() == 0 {
        seq![]
    } else {
        hex_string(bytes.drop_last()) + seq![
            hex_char(bytes.last() / 16),
            hex_char(bytes.last() % 16),
        ]
    }
}

/// Hex encoding writes each byte as two characters, high nibble first, each
/// a digit `0`-`9` or a lower-case letter `a`-`f` for its value.
pub proof fn lemma_hex_string(bytes: Seq<u8>)
    ensures
        hex_string(bytes).len() == 2 * bytes.len(),
        forall|i: int|
            0 <= i < bytes.len() ==> hex_string(bytes)[2 * i] == hex_char(#[trigger] bytes[i] / 16)
                && hex_string(bytes)[2 * i + 1] == hex_char(bytes[i] % 16),
        forall|n: u8|
            n < 16 ==> (#[trigger] hex_char(n) as u32) == if n < 10 {
                48 + n
            } else {
                97 + n - 10
            },
    decreases bytes.len(),
{
    if bytes.len() > 0 {
        let init = bytes.drop_last();
        lemma_hex_string(init);
        let h = hex_string(bytes);
        assert forall|i: int| 0 <= i < bytes.len() implies h[2 * i] == hex_char(
            #[trigger] bytes[i] / 16,
        ) && h[2 * i + 1] == hex_char(bytes[i] % 16) by {
            if i < init.len() {
                assert(bytes[i] == init[i]);
                assert(h[2 * i] == hex_string(init)[2 * i]);
                assert(h[2 * i + 1] == hex_string(init)[2 * i + 1]);
            }
        }
    }
}

fn hex_digit_char(n: u8) -> (c: char)
    requires
        n < 16,
    ensures
        c == hex_char(n),
{
    if n < 10 {
        (48 + n) as char
    } else {
        (87 + n) as char
    }
}

/// Lower-case hex encoding of `bytes`.
pub fn hex_encode(bytes: &[u8]) -> (s: String)
    ensures
        s@ == hex_string(bytes@),
        s@.len() == 2 * bytes@.len(),
{
    let mut s = String::new();
    for i in 0..bytes.len()
        invariant
            s@ == hex_string(bytes@.take(i as int)),
            s@.len() == 2 * i,
    {
        let b = bytes[i];
        assert(b >> 4u8 == b / 16 && b & 0xfu8 == b % 16) by (bit_vector);
        s.push(hex_digit_char(b >> 4));
        s.push(hex_digit_char(b & 0xf));
        assert(bytes@.take(i + 1).drop_last() =~= bytes@.take(i as int));
        assert(s@ =~= hex_string(bytes@.take(i + 1)));
    }
    assert(bytes@.take(bytes@.len() as int) =~= bytes@);
    s
}

/// The socket-name bytes used when `/dev/urandom` cannot be read: the
/// clock's sub-second nanoseconds mixed with the process id,
/// `mixed = nanos ^ (pid << 8)`, byte `i` being `mixed >> ((8 * i) % 32)`.
pub open spec fn fallback_byte(nanos: u64, pid: u64, i: int) -> u8 {
    ((nanos ^ (pid << 8u64)) >> (((8 * i) % 32) as u64)) as u8
}

/// The eight fallback bytes for the socket name.
pub fn fallback_id_bytes(nanos: u64, pid: u64) -> (b: Vec<u8>)
    ensures
        b@.len() == 8,
        forall|i: int| 0 <= i < 8 ==> #[trigger] b@[i] == fallback_byte(nanos, pid, i),
{
    let mixed = nanos ^ (pid << 8u64);
    let mut b: Vec<u8> = Vec::new();
    for i in 0..8usize
        invariant
            mixed == nanos ^ (pid << 8u64),
            b@.len() == i,
            forall|j: int| 0 <= j < i ==> #[trigger] b@[j] == fallback_byte(nanos, pid, j),
    {
        let shift: u64 = ((i * 8) % 32) as u64;
        b.push((mixed >> shift) as u8);
    }
    b
}

/// `dms-pinentry-<id>.sock`
pub fn socket_file_name(id: &str) -> (s: String)
    ensures
        s@ == "dms-pinentry-"@ + id@ + ".sock"@,
{
    let mut s = String::new();
    push_str(&mut s, "dms-pinentry-");
    push_str(&mut s, id);
    push_str(&mut s, ".sock");
    assert(s@ =~= "dms-pinentry-"@ + id@ + ".sock"@);
    s
}

/// The socket directory used without `XDG_RUNTIME_DIR`:
/// `/tmp/dms-pinentry-<uid>`.
pub fn fallback_runtime_dir(uid: u32) -> (s: String)
    ensures
        s@ == "/tmp/dms-pinentry-"@ + decimal(uid as nat),
{
    let mut s = String::new();
    push_str(&mut s, "/tmp/dms-pinentry-");
    push_decimal(&mut s, uid as u64);
    assert(s@ =~= "/tmp/dms-pinentry-"@ + decimal(uid as nat));
    s
}

/* Passphrase hygiene */

/// `String::into_bytes` hands over the string's UTF-8 bytes.
pub assume_specification[ String::into_bytes ](s: String) -> (v: Vec<u8>)
    ensures
        v@ == encode_utf8(s@),
;

/// `std::string::FromUtf8Error`, carried through as it is.
#[verifier::external_type_specification]
#[verifier::external_body]
pub struct ExFromUtf8Error(std::string::FromUtf8Error);

/// `String::from_utf8` succeeds exactly on valid UTF-8, which it decodes.
pub assume_specification[ String::from_utf8 ](vec: Vec<u8>) -> (r: Result<
    String,
    std::string::FromUtf8Error,
>)
    ensures
        r is Ok <==> valid_utf8(vec@),
        r matches Ok(s) ==> s@ == decode_utf8(vec@),
;

/// Overwrites every byte of `v` with zero, keeping its length.
pub fn zero_bytes(v: &mut Vec<u8>)
    ensures
        final(v)@.len() == old(v)@.len(),
        forall|j: int| 0 <= j < final(v)@.len() ==> #[trigger] final(v)@[j] == 0,
{
    let n = v.len();
    for i in 0..n
        invariant
            v@.len() == n,
            forall|j: int| 0 <= j < i ==> #[trigger] v@[j] == 0,
    {
        v.set(i, 0);
    }
}

/// Overwrites a string's bytes with zeros in place and leaves it empty, so a
/// passphrase does not linger in memory that is later freed. The buffer is
/// kept by `s`.
pub fn zeroize_string(s: &mut String)
    ensures
        final(s)@ == Seq::<char>::empty(),
{
    let mut taken = String::new();
    std::mem::swap(&mut taken, s);
    let mut bytes = taken.into_bytes();
    zero_bytes(&mut bytes);
    bytes.clear();
    proof {
        assert(valid_utf8(bytes@));
    }
    if let Ok(t) = String::from_utf8(bytes) {
        *s = t;
    }
}

/* Waiting for the plugin */

/// Time added to the modal's own timeout before the binary gives up.
pub const DEADLINE_BUFFER_SECS: u64 = 10;

/// The modal's fallback timeout when no `SETTIMEOUT` was given.
pub const MODAL_DEFAULT_SECS: u64 = 60;

/// How long the modal itself waits: the `SETTIMEOUT` value when positive,
/// otherwise its 60 s default.
pub open spec fn modal_timeout_secs(timeout: i32) -> int {
    if timeout > 0 {
        timeout as int
    } else {
        MODAL_DEFAULT_SECS as int
    }
}

/// Seconds the binary waits for the plugin to connect and answer: the
/// modal's timeout plus a 10 s buffer, so that it strictly exceeds the
/// modal's timeout and the modal's own timeout reply arrives first.
pub fn dialog_deadline(state: &State) -> (secs: u64)
    ensures
        secs == modal_timeout_secs(state.timeout) + DEADLINE_BUFFER_SECS,
        secs > modal_timeout_secs(state.timeout),
{
    let modal: u64 = if state.timeout > 0 {
        state.timeout as u64
    } else {
        MODAL_DEFAULT_SECS
    };
    modal + DEADLINE_BUFFER_SECS
}

/// What `try_wait` told of the `dms ipc call` child.
#[derive(Clone, Copy, Debug, PartialEq, Eq, Structural)]
pub enum ChildStatus {
    /// Still running, or its status could not be read.
    Running,
    /// Exited with success: the plugin has the request and shows a modal.
    ExitedOk,
    /// Exited with failure: DMS is unreachable or the handler is missing.
    ExitedErr,
}

/// Why waiting for the plugin stops without an answer.
#[derive(Clone, Copy, Debug, PartialEq, Eq, Structural)]
pub enum WaitFailure {
    /// The `dms ipc call` child failed, so no modal will appear.
    DmsUnreachable,
    /// The deadline passed before the plugin connected.
    NeverConnected,
    /// The deadline passed before the plugin's reply line arrived.
    ReadTimedOut,
}

/// What to do after a poll found nothing yet.
#[derive(Clone, Copy, Debug, PartialEq, Eq, Structural)]
pub enum WaitStep {
    /// Sleep briefly and poll again.
    Wait,
    /// Give up with this failure.
    GiveUp(WaitFailure),
}

/// Whether `elapsed_nanos` has reached a deadline of `deadline_secs`.
pub open spec fn deadline_passed(elapsed_nanos: u128, deadline_secs: u64) -> bool {
    elapsed_nanos >= deadline_secs * 1_000_000_000
}

/// The step after an `accept` that would block: fail fast when the child
/// has failed, give up once the deadline has passed, otherwise wait.
pub open spec fn accept_step_spec(child: ChildStatus, elapsed_nanos: u128, deadline_secs: u64) -> WaitStep {
    if child == ChildStatus::ExitedErr {
        WaitStep::GiveUp(WaitFailure::DmsUnreachable)
    } else if deadline_passed(elapsed_nanos, deadline_secs) {
        WaitStep::GiveUp(WaitFailure::NeverConnected)
    } else {
        WaitStep::Wait
    }
}

/// Waiting for the plugin to connect never outlasts the deadline, and stops
/// early only for a failed child: a failed `dms ipc call` gives up at once
/// as unreachable; otherwise, whether the child still runs or exited
/// successfully, the wait goes on exactly while less than `deadline_secs`
/// seconds have passed, and then gives up as never connected.
pub proof fn lemma_accept_step(child: ChildStatus, elapsed_nanos: u128, deadline_secs: u64)
    ensures
        elapsed_nanos >= deadline_secs * 1_000_000_000 ==> accept_step_spec(
            child,
            elapsed_nanos,
            deadline_secs,
        ) is GiveUp,
        (accept_step_spec(child, elapsed_nanos, deadline_secs) == WaitStep::GiveUp(
            WaitFailure::DmsUnreachable,
        )) <==> child == ChildStatus::ExitedErr,
        child != ChildStatus::ExitedErr ==> (accept_step_spec(child, elapsed_nanos, deadline_secs)
            == if elapsed_nanos >= deadline_secs * 1_000_000_000 {
            WaitStep::GiveUp(WaitFailure::NeverConnected)
        } else {
            WaitStep::Wait
        }),
{
}

/// A deadline of `deadline_secs` seconds has passed once that many seconds,
/// counted in nanoseconds, have elapsed.
pub proof fn lemma_deadline_passed(elapsed_nanos: u128, deadline_secs: u64)
    ensures
        deadline_passed(elapsed_nanos, deadline_secs) <==> elapsed_nanos >= deadline_secs
            * 1_000_000_000,
{
}

/// The binary waits ten seconds past the modal's own timeout: the
/// `SETTIMEOUT` value when it is positive, 60 seconds otherwise.
pub proof fn lemma_deadline_secs(timeout: i32)
    ensures
        timeout > 0 ==> modal_timeout_secs(timeout) + DEADLINE_BUFFER_SECS == timeout + 10,
        timeout <= 0 ==> modal_timeout_secs(timeout) + DEADLINE_BUFFER_SECS == 70,
{
}

/// The step after an `accept` that would block.
pub fn accept_step(child: ChildStatus, elapsed_nanos: u128, deadline_secs: u64) -> (s: WaitStep)
    ensures
        s == accept_step_spec(child, elapsed_nanos, deadline_secs),
{
    match child {
        ChildStatus::ExitedErr => WaitStep::GiveUp(WaitFailure::DmsUnreachable),
        _ => {
            if elapsed_nanos >= (deadline_secs as u128) * 1_000_000_000 {
                WaitStep::GiveUp(WaitFailure::NeverConnected)
            } else {
                WaitStep::Wait
            }
        },
    }
}

/// The step after a read that would block: give up once the deadline has
/// passed, otherwise wait.
pub fn read_step(elapsed_nanos: u128, deadline_secs: u64) -> (s: WaitStep)
    ensures
        s == (if deadline_passed(elapsed_nanos, deadline_secs) {
            WaitStep::GiveUp(WaitFailure::ReadTimedOut)
        } else {
            WaitStep::Wait
        }),
{
    if elapsed_nanos >= (deadline_secs as u128) * 1_000_000_000 {
        WaitStep::GiveUp(WaitFailure::ReadTimedOut)
    } else {
        WaitStep::Wait
    }
}

/// Whether the bytes received so far hold a whole reply line.
pub fn response_complete(buf: &[u8]) -> (r: bool)
    ensures
        r == buf@.contains(10u8),
{
    let mut i: usize = 0;
    while i < buf.len()
        invariant
            i <= buf@.len(),
            forall|j: int| 0 <= j < i ==> buf@[j] != 10u8,
        decreases buf.len() - i,
    {
        if buf[i] == 10 {
            assert(buf@[i as int] == 10u8);
            return true;
        }
        i = i + 1;
    }
    assert(!buf@.contains(10u8)) by {
        if buf@.contains(10u8) {
            let k = choose|k: int| 0 <= k < buf@.len() && buf@[k] == 10u8;
            assert(buf@[k] != 10u8);
        }
    }
    false
}

/// Whether a byte is trimmed from the end of the plugin's reply.
pub open spec fn is_reply_padding(b: u8) -> bool {
    b == 10 || b == 13 || b == 32
}

/// The reply without its trailing line feeds, carriage returns and spaces.
pub open spec fn trim_reply(b: Seq<u8>) -> Seq<u8>
    decreases b.len(),
{
    if b.len() > 0 && is_reply_padding(b.last()) {
        trim_reply(b.drop_last())
    } else {
        b
    }
}

/// Drops trailing line feeds, carriage returns and spaces from the reply.
pub fn trim_response(buf: &mut Vec<u8>)
    ensures
        final(buf)@ == trim_reply(old(buf)@),
{
    while buf.len() > 0 && (buf[buf.len() - 1] == 10 || buf[buf.len() - 1] == 13 || buf[buf.len()
        - 1] == 32)
        invariant
            trim_reply(buf@) == trim_reply(old(buf)@),
        decreases buf.len(),
    {
        assert(buf@.drop_last() == buf@.take(buf@.len() - 1));
        buf.pop();
    }
}

} // verus!
