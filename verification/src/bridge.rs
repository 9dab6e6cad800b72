use vstd::prelude::*;

use crate::text::utf8_lossy;

verus! {

/// How long a terminal outlives the WebSocket that used it, in seconds.
pub const CLEANUP_DELAY_SECS: u64 = 30;

/// Pause after a non-blocking read found nothing, in milliseconds.
pub const READ_RETRY_MILLIS: u64 = 10;

/// Whether `String::from_utf8` accepts a byte string.
pub open spec fn utf8_ok(bytes: Seq<u8>) -> bool {
    vstd::utf8::valid_utf8(bytes)
}

/// Calls `String::from_utf8`, which (as its documentation says) succeeds exactly on valid
/// UTF-8 and then holds the decoded characters.
#[verifier::external_body]
pub(crate) fn decode_strict(bytes: Vec<u8>) -> (r: Option<String>)
    ensures
        r is Some <==> vstd::utf8::valid_utf8(bytes@),
        r matches Some(s) ==> s@ == vstd::utf8::decode_utf8(bytes@),
{
    String::from_utf8(bytes).ok()
}

/// Which terminal a new WebSocket connection talks to.
pub enum Connection {
    /// The mirror of a discovered terminal.
    Mirror(String),
    /// A terminal spawned earlier.
    Existing(String),
    /// A terminal spawned for this connection.
    SpawnNew,
}

/// A mirror id wins over a terminal id; with neither, a new terminal is spawned.
pub fn connection_target(terminal_id: Option<String>, mirror_id: Option<String>) -> (c: Connection)
    ensures
        mirror_id matches Some(m) ==> (c matches Connection::Mirror(x) && x == m),
        mirror_id is None && terminal_id is Some ==> (c matches Connection::Existing(x)
            && terminal_id == Some(x)),
        mirror_id is None && terminal_id is None ==> c is SpawnNew,
{
    match mirror_id {
        Some(m) => Connection::Mirror(m),
        None => match terminal_id {
            Some(t) => Connection::Existing(t),
            None => Connection::SpawnNew,
        },
    }
}

/// What the browser side of a WebSocket delivered.
pub enum ClientEvent {
    Text(String),
    Binary(Vec<u8>),
    Close,
    Failed,
    Ended,
    /// Ping, pong and other control frames.
    Other,
}

/// What to do with a client event on a mirror connection.
pub enum MirrorAction {
    /// Send this text to the mirrored terminal as input.
    Input(String),
    /// Nothing to do.
    Ignore,
    /// End the connection.
    Stop,
}

/// Text goes to the terminal, binary data too when it is valid UTF-8 (otherwise it is
/// dropped); closing, a failure or the end of the stream ends the connection.
pub fn mirror_client_action(ev: ClientEvent) -> (a: MirrorAction)
    ensures
        ev matches ClientEvent::Text(t) ==> (a matches MirrorAction::Input(x) && x == t),
        ev matches ClientEvent::Binary(d) ==> (if utf8_ok(d@) {
            a matches MirrorAction::Input(x) && x@ == vstd::utf8::decode_utf8(d@)
        } else {
            a is Ignore
        }),
        (ev is Close || ev is Failed || ev is Ended) ==> a is Stop,
        ev is Other ==> a is Ignore,
{
    match ev {
        ClientEvent::Text(t) => MirrorAction::Input(t),
        ClientEvent::Binary(d) => match decode_strict(d) {
            Some(t) => MirrorAction::Input(t),
            None => MirrorAction::Ignore,
        },
        ClientEvent::Close => MirrorAction::Stop,
        ClientEvent::Failed => MirrorAction::Stop,
        ClientEvent::Ended => MirrorAction::Stop,
        ClientEvent::Other => MirrorAction::Ignore,
    }
}

/// What to do with a client event on a terminal connection.
pub enum TerminalAction {
    /// Write these bytes to the terminal.
    Write(Vec<u8>),
    Ignore,
    Stop,
}

/// Text is written to the terminal as its UTF-8 bytes, binary data as it is; closing, a
/// failure or the end of the stream ends the connection.
pub fn terminal_client_action(ev: ClientEvent) -> (a: TerminalAction)
    ensures
        ev matches ClientEvent::Text(t) ==> (a matches TerminalAction::Write(b) && b@
            == vstd::utf8::encode_utf8(t@)),
        ev matches ClientEvent::Binary(d) ==> (a matches TerminalAction::Write(b) && b == d),
        (ev is Close || ev is Failed || ev is Ended) ==> a is Stop,
        ev is Other ==> a is Ignore,
{
    match ev {
        ClientEvent::Text(t) => {
            let bytes = t.as_str().as_bytes_vec();
            TerminalAction::Write(bytes)
        },
        ClientEvent::Binary(d) => TerminalAction::Write(d),
        ClientEvent::Close => TerminalAction::Stop,
        ClientEvent::Failed => TerminalAction::Stop,
        ClientEvent::Ended => TerminalAction::Stop,
        ClientEvent::Other => TerminalAction::Ignore,
    }
}

/// A write to the terminal failed when it returned a negative count; the connection then ends.
pub fn write_keeps_going(result: isize) -> (go_on: bool)
    ensures
        go_on == (result >= 0),
{
    result >= 0
}

/// What the reader of a terminal does after one read.
pub enum ReadStep {
    /// Forward this output to the browser.
    Output(String),
    /// Nothing was there yet; wait and read again.
    Retry,
    /// The terminal is closed or broken; stop reading.
    Stop,
}

/// The step after a read that returned `n` into `buffer`: end of file stops, data is decoded
/// as lossy UTF-8 and forwarded, an error stops unless it only says that nothing is there yet.
pub fn read_step(n: isize, buffer: &[u8], would_block: bool) -> (s: ReadStep)
    requires
        n <= buffer@.len(),
    ensures
        n == 0 ==> s is Stop,
        n > 0 ==> (s matches ReadStep::Output(t) && t@ == utf8_lossy(buffer@.subrange(0, n as int))),
        n < 0 && would_block ==> s is Retry,
        n < 0 && !would_block ==> s is Stop,
{
    if n == 0 {
        ReadStep::Stop
    } else if n > 0 {
        let k = n as usize;
        let mut chunk: Vec<u8> = Vec::new();
        let mut i: usize = 0;
        while i < k
            invariant
                i <= k == n,
                n <= buffer@.len(),
                chunk@ == buffer@.subrange(0, i as int),
            decreases k - i,
        {
            chunk.push(buffer[i]);
            i = i + 1;
            proof {
                assert(chunk@ =~= buffer@.subrange(0, i as int));
            }
        }
        ReadStep::Output(crate::text::decode_lossy(chunk.as_slice()))
    } else if would_block {
        ReadStep::Retry
    } else {
        ReadStep::Stop
    }
}

} // verus!
