//! The command dispatcher: maps each validated command to the corresponding
//! store operation, or to a fixed reply for commands with no state effect,
//! and produces the reply to encode.
use vstd::prelude::*;

use crate::command::Command;
use crate::command::CommandV;
use crate::codec::Reply;
use crate::codec::ReplyV;
use crate::config::Config;
use crate::store::EntryV;
use crate::store::Store;
use crate::store::read_from_storage;
use crate::store::spec_read;
use crate::store::write_to_storage;

verus! {

/// The fixed status text that answers `PING`.
pub open spec fn pong() -> Seq<u8> {
    seq!['P' as u8, 'O' as u8, 'N' as u8, 'G' as u8]
}

/// The fixed status text that answers a successful `SET`.
pub open spec fn ok_status() -> Seq<u8> {
    seq!['O' as u8, 'K' as u8]
}

/// The reply to `CONFIG GET p`: the two-element array `[p, value]` when `p`
/// is configured, and the empty array when it is not.
pub open spec fn spec_config_reply(cfg: Map<Seq<u8>, Seq<u8>>, p: Seq<u8>) -> ReplyV {
    if cfg.dom().contains(p) {
        ReplyV::Array(seq![p, cfg[p]])
    } else {
        ReplyV::Array(Seq::empty())
    }
}

/// What dispatching a command returns and how it changes the store contents,
/// for every command, store, configuration and time:
/// `PING` answers the fixed status; `ECHO` answers its message unchanged;
/// `SET` inserts the entry and answers the fixed status; `GET` answers the
/// live value as a bulk reply or the null bulk reply; `CONFIG GET` answers
/// from the configuration. Only `SET` changes the store.
pub open spec fn spec_handle(
    c: CommandV,
    m: Map<Seq<u8>, EntryV>,
    cfg: Map<Seq<u8>, Seq<u8>>,
    now_ms: u64,
) -> (ReplyV, Map<Seq<u8>, EntryV>) {
    match c {
        CommandV::Ping => (ReplyV::Status(pong()), m),
        CommandV::Echo { message } => (ReplyV::Bulk(message), m),
        CommandV::SetValue { key, value, ttl_ms } => (
            ReplyV::Status(ok_status()),
            m.insert(key, EntryV { value, ttl_ms, created_at_ms: now_ms }),
        ),
        CommandV::Get { key } => (
            match spec_read(m, key, now_ms) {
                Option::Some(v) => ReplyV::Bulk(v),
                Option::None => ReplyV::Null,
            },
            m,
        ),
        CommandV::ConfigGet { parameter } => (spec_config_reply(cfg, parameter), m),
    }
}

fn pong_vec() -> (r: Vec<u8>)
    ensures
        r@ == pong(),
{
    let mut v: Vec<u8> = Vec::new();
    v.push(80);
    v.push(79);
    v.push(78);
    v.push(71);
    assert(v@ =~= pong());
    v
}

fn ok_vec() -> (r: Vec<u8>)
    ensures
        r@ == ok_status(),
{
    let mut v: Vec<u8> = Vec::new();
    v.push(79);
    v.push(75);
    assert(v@ =~= ok_status());
    v
}

/// Dispatches one command against the store and the configuration at time
/// `now_ms`, returning the reply to encode. The store changes exactly as
/// [`spec_handle`] says: an insert for `SET`, nothing otherwise.
pub fn handle(c: Command, store: &mut Store, cfg: &Config, now_ms: u64) -> (r: Reply)
    ensures
        r@ == spec_handle(c@, old(store).contents(), cfg@, now_ms).0,
        final(store).contents() == spec_handle(c@, old(store).contents(), cfg@, now_ms).1,
{
    match c {
        Command::Ping => Reply::Status(pong_vec()),
        Command::Echo { message } => Reply::Bulk(message),
        Command::SetValue { key, value, ttl_ms } => {
            write_to_storage(store, key, value, ttl_ms, now_ms);
            Reply::Status(ok_vec())
        },
        Command::Get { key } => {
            match read_from_storage(store, &key, now_ms) {
                Some(v) => Reply::Bulk(v),
                None => Reply::Null,
            }
        },
        Command::ConfigGet { parameter } => {
            match cfg.get(&parameter) {
                Some(v) => {
                    let ghost pv = parameter@;
                    let ghost vv = v@;
                    let mut items: Vec<Vec<u8>> = Vec::new();
                    items.push(parameter);
                    items.push(v);
                    proof {
                        assert(items.deep_view() =~~= seq![pv, vv]);
                    }
                    Reply::Array(items)
                },
                None => {
                    let items: Vec<Vec<u8>> = Vec::new();
                    proof {
                        assert(items.deep_view() =~~= Seq::<Seq<u8>>::empty());
                    }
                    Reply::Array(items)
                },
            }
        },
    }
}

/// `ECHO` answers exactly its message, for any byte string including the
/// empty one, and leaves the store unchanged.
pub proof fn lemma_echo_exact(
    message: Seq<u8>,
    m: Map<Seq<u8>, EntryV>,
    cfg: Map<Seq<u8>, Seq<u8>>,
    now_ms: u64,
)
    ensures
        spec_handle(CommandV::Echo { message }, m, cfg, now_ms) == (ReplyV::Bulk(message), m),
{
}

/// A frame whose first element reads `PING` parses to `PING` and answers the
/// fixed status reply, no matter how many extra elements the frame carries
/// and no matter what they hold; the store is unchanged.
pub proof fn lemma_ping_ignores_args(
    f: Seq<Seq<u8>>,
    m: Map<Seq<u8>, EntryV>,
    cfg: Map<Seq<u8>, Seq<u8>>,
    now_ms: u64,
)
    requires
        f.len() >= 1,
        crate::command::upper_seq(f[0]) == crate::command::name_ping(),
    ensures
        crate::command::spec_parse(f) == Ok::<CommandV, crate::command::CommandError>(
            CommandV::Ping,
        ),
        spec_handle(CommandV::Ping, m, cfg, now_ms) == (ReplyV::Status(pong()), m),
{
}

/// `CONFIG GET` on a configured parameter answers the two-element array of
/// the parameter name and its configured value, and leaves the store
/// unchanged.
pub proof fn lemma_config_get_configured(
    p: Seq<u8>,
    m: Map<Seq<u8>, EntryV>,
    cfg: Map<Seq<u8>, Seq<u8>>,
    now_ms: u64,
)
    requires
        cfg.dom().contains(p),
    ensures
        spec_handle(CommandV::ConfigGet { parameter: p }, m, cfg, now_ms) == (
            ReplyV::Array(seq![p, cfg[p]]),
            m,
        ),
{
}

} // verus!
