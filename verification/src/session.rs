//! One step of the connection session loop.
//!
//! The caller accumulates bytes from its connection into a buffer and calls
//! [`session_step`] with the current time. The step decodes at most one frame
//! from the front of the buffer, converts it to a command, dispatches it, and
//! returns the encoded reply together with how many buffered bytes the frame
//! occupied; or asks for more bytes. Protocol and command errors are local to
//! the offending request: they produce an error reply and leave the store
//! untouched, and the session goes on serving later frames.
use vstd::prelude::*;

use crate::codec::DecodeError;
use crate::codec::Reply;
use crate::codec::ReplyV;
use crate::codec::decode;
use crate::codec::encode;
use crate::codec::reply_bytes;
use crate::codec::spec_decode;
use crate::codec::SpecDecode;
use crate::command::CommandError;
use crate::command::parse;
use crate::command::spec_parse;
use crate::config::Config;
use crate::dispatch::handle;
use crate::dispatch::spec_handle;
use crate::store::EntryV;
use crate::store::Store;

verus! {

/// Turns a sequence of ASCII characters into the bytes that spell it.
pub open spec fn ascii_bytes(s: Seq<char>) -> Seq<u8> {
    s.map_values(|c: char| c as u8)
}

/// The error text sent back for a malformed frame.
pub open spec fn protocol_error_msg() -> Seq<u8> {
    ascii_bytes("ERR protocol error"@)
}

/// The error text sent back for each way a well-formed frame fails to be a
/// command.
pub open spec fn command_error_msg(e: CommandError) -> Seq<u8> {
    match e {
        CommandError::UnknownCommand => ascii_bytes("ERR unknown command"@),
        CommandError::ArityError => ascii_bytes("ERR wrong number of arguments"@),
        CommandError::ArgumentError => ascii_bytes("ERR invalid argument"@),
    }
}

/// What one session step does, for every buffer, store, configuration and
/// time: wait for more bytes on an incomplete frame; answer a malformed
/// buffer with an error reply, discarding the buffered bytes and leaving the
/// store as it was; answer a frame that is no command with an error reply,
/// consuming the frame and leaving the store as it was; and dispatch a valid
/// command, consuming the frame.
pub open spec fn spec_step(
    buf: Seq<u8>,
    m: Map<Seq<u8>, EntryV>,
    cfg: Map<Seq<u8>, Seq<u8>>,
    now_ms: u64,
) -> StepV {
    match spec_decode(buf) {
        SpecDecode::More => StepV::NeedMore,
        SpecDecode::Bad => StepV::Respond {
            reply: reply_bytes(ReplyV::Error(protocol_error_msg())),
            consumed: buf.len() as int,
            store: m,
        },
        SpecDecode::Frame { es, used } => match spec_parse(es) {
            Err(e) => StepV::Respond {
                reply: reply_bytes(ReplyV::Error(command_error_msg(e))),
                consumed: used,
                store: m,
            },
            Ok(c) => StepV::Respond {
                reply: reply_bytes(spec_handle(c, m, cfg, now_ms).0),
                consumed: used,
                store: spec_handle(c, m, cfg, now_ms).1,
            },
        },
    }
}

/// Mathematical image of a [`StepOutcome`] together with the store it leaves
/// behind.
pub enum StepV {
    NeedMore,
    Respond { reply: Seq<u8>, consumed: int, store: Map<Seq<u8>, EntryV> },
}

/// What one session step hands back to the connection loop.
pub enum StepOutcome {
    /// The buffer holds no complete frame yet: read more bytes and try again.
    NeedMore,
    /// Send `reply` and drop the first `consumed` bytes of the buffer.
    Respond { reply: Vec<u8>, consumed: usize },
}

fn ascii_msg(s: &str) -> (r: Vec<u8>)
    requires
        s.is_ascii(),
    ensures
        r@ == ascii_bytes(s@),
{
    let v = s.as_bytes_vec();
    proof {
        broadcast use vstd::string::is_ascii_spec_bytes;

        assert(v@ =~= ascii_bytes(s@));
    }
    v
}

fn protocol_error_vec() -> (r: Vec<u8>)
    ensures
        r@ == protocol_error_msg(),
{
    proof {
        reveal_strlit("ERR protocol error");
    }
    ascii_msg("ERR protocol error")
}

fn command_error_vec(e: CommandError) -> (r: Vec<u8>)
    ensures
        r@ == command_error_msg(e),
{
    match e {
        CommandError::UnknownCommand => {
            proof {
                reveal_strlit("ERR unknown command");
            }
            ascii_msg("ERR unknown command")
        },
        CommandError::ArityError => {
            proof {
                reveal_strlit("ERR wrong number of arguments");
            }
            ascii_msg("ERR wrong number of arguments")
        },
        CommandError::ArgumentError => {
            proof {
                reveal_strlit("ERR invalid argument");
            }
            ascii_msg("ERR invalid argument")
        },
    }
}

/// Runs one step of the session loop on the buffered bytes: decode, parse,
/// dispatch, encode. Behaves exactly as [`spec_step`] says, and the number of
/// consumed bytes never exceeds the buffer's length.
pub fn session_step(buf: &Vec<u8>, store: &mut Store, cfg: &Config, now_ms: u64) -> (r:
    StepOutcome)
    ensures
        match r {
            StepOutcome::NeedMore => {
                &&& spec_step(buf@, old(store).contents(), cfg@, now_ms) is NeedMore
                &&& final(store).contents() == old(store).contents()
            },
            StepOutcome::Respond { reply, consumed } => {
                &&& spec_step(buf@, old(store).contents(), cfg@, now_ms) == (StepV::Respond {
                    reply: reply@,
                    consumed: consumed as int,
                    store: final(store).contents(),
                })
                &&& consumed <= buf.len()
            },
        },
{
    match decode(buf) {
        Err(DecodeError::NeedMoreData) => StepOutcome::NeedMore,
        Err(DecodeError::Protocol) => {
            let reply = encode(&Reply::Error(protocol_error_vec()));
            StepOutcome::Respond { reply, consumed: buf.len() }
        },
        Ok((frame, used)) => {
            match parse(&frame) {
                Err(e) => {
                    let reply = encode(&Reply::Error(command_error_vec(e)));
                    StepOutcome::Respond { reply, consumed: used }
                },
                Ok(c) => {
                    let rep = handle(c, store, cfg, now_ms);
                    let reply = encode(&rep);
                    StepOutcome::Respond { reply, consumed: used }
                },
            }
        },
    }
}

/// A malformed buffer is answered with the protocol error reply, the
/// connection is not terminated, and the store is left exactly as it was:
/// the step on a malformed buffer hands every later frame on the same
/// connection the very store `m` it started from, so a following well-formed
/// frame is served exactly as it would have been without the bad input.
pub proof fn lemma_bad_frame_isolated(
    buf: Seq<u8>,
    m: Map<Seq<u8>, EntryV>,
    cfg: Map<Seq<u8>, Seq<u8>>,
    now_ms: u64,
)
    requires
        spec_decode(buf) is Bad,
    ensures
        spec_step(buf, m, cfg, now_ms) == (StepV::Respond {
            reply: reply_bytes(ReplyV::Error(protocol_error_msg())),
            consumed: buf.len() as int,
            store: m,
        }),
{
}

/// A buffer that starts with the encoding of any well-formed frame — with
/// any further bytes pipelined behind it — is answered in one step: the frame
/// is consumed exactly, and the reply and the new store are those of parsing
/// and dispatching that frame, an error reply leaving the store untouched
/// when the frame is no command.
pub proof fn lemma_step_serves_encoded_frame(
    es: Seq<Seq<u8>>,
    rest: Seq<u8>,
    m: Map<Seq<u8>, EntryV>,
    cfg: Map<Seq<u8>, Seq<u8>>,
    now_ms: u64,
)
    requires
        crate::codec::wf_frame(es),
    ensures
        spec_step(crate::codec::frame_bytes(es) + rest, m, cfg, now_ms) == (match spec_parse(es) {
            Err(e) => StepV::Respond {
                reply: reply_bytes(ReplyV::Error(command_error_msg(e))),
                consumed: crate::codec::frame_bytes(es).len() as int,
                store: m,
            },
            Ok(c) => StepV::Respond {
                reply: reply_bytes(spec_handle(c, m, cfg, now_ms).0),
                consumed: crate::codec::frame_bytes(es).len() as int,
                store: spec_handle(c, m, cfg, now_ms).1,
            },
        }),
{
    crate::codec::lemma_frame_round_trip(es, rest);
}

/// A well-formed frame that is no command is answered with the matching
/// error reply, consumes exactly its own bytes, and leaves the store as it
/// was.
pub proof fn lemma_bad_command_isolated(
    buf: Seq<u8>,
    m: Map<Seq<u8>, EntryV>,
    cfg: Map<Seq<u8>, Seq<u8>>,
    now_ms: u64,
    es: Seq<Seq<u8>>,
    used: int,
    e: CommandError,
)
    requires
        spec_decode(buf) == (SpecDecode::Frame { es, used }),
        spec_parse(es) == Err::<crate::command::CommandV, CommandError>(e),
    ensures
        spec_step(buf, m, cfg, now_ms) == (StepV::Respond {
            reply: reply_bytes(ReplyV::Error(command_error_msg(e))),
            consumed: used,
            store: m,
        }),
{
}

} // verus!
