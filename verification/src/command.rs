//! The command model: turning a decoded frame into a validated command.
//!
//! The first frame element, normalized to ASCII upper case, selects the
//! variant; each variant checks its exact argument count, and `SET` accepts an
//! optional trailing `px <milliseconds>` pair for a time-to-live.
use vstd::prelude::*;

use crate::bytes::all_digits;
use crate::bytes::bytes_eq;
use crate::bytes::digits_val;
use crate::bytes::lemma_digits_val_bound;
use crate::bytes::pow10;
use crate::codec::Frame;

verus! {

/// The closed set of command keywords.
#[derive(Debug, PartialEq, Eq, Structural, Clone, Copy)]
pub enum RedisCommands {
    Ping,
    Echo,
    SetValue,
    Get,
    Config,
}

/// The wire keyword of each command.
pub open spec fn spec_command_name(c: RedisCommands) -> Seq<char> {
    match c {
        RedisCommands::Ping => "PING"@,
        RedisCommands::Echo => "ECHO"@,
        RedisCommands::SetValue => "SET"@,
        RedisCommands::Get => "GET"@,
        RedisCommands::Config => "CONFIG"@,
    }
}

impl RedisCommands {
    /// The keyword that selects this command on the wire.
    pub fn as_command(&self) -> (r: &'static str)
        ensures
            r@ == spec_command_name(*self),
    {
        match self {
            RedisCommands::Ping => "PING",
            RedisCommands::Echo => "ECHO",
            RedisCommands::SetValue => "SET",
            RedisCommands::Get => "GET",
            RedisCommands::Config => "CONFIG",
        }
    }
}

/// A validated command, carrying exactly the arguments its operation needs.
pub enum Command {
    Ping,
    Echo { message: Vec<u8> },
    SetValue { key: Vec<u8>, value: Vec<u8>, ttl_ms: Option<u64> },
    Get { key: Vec<u8> },
    ConfigGet { parameter: Vec<u8> },
}

/// Mathematical image of a [`Command`].
pub enum CommandV {
    Ping,
    Echo { message: Seq<u8> },
    SetValue { key: Seq<u8>, value: Seq<u8>, ttl_ms: Option<u64> },
    Get { key: Seq<u8> },
    ConfigGet { parameter: Seq<u8> },
}

impl View for Command {
    type V = CommandV;

    open spec fn view(&self) -> CommandV {
        match self {
            Command::Ping => CommandV::Ping,
            Command::Echo { message } => CommandV::Echo { message: message@ },
            Command::SetValue { key, value, ttl_ms } => CommandV::SetValue {
                key: key@,
                value: value@,
                ttl_ms: *ttl_ms,
            },
            Command::Get { key } => CommandV::Get { key: key@ },
            Command::ConfigGet { parameter } => CommandV::ConfigGet { parameter: parameter@ },
        }
    }
}

/// Why a well-formed frame is not a valid command.
#[derive(Debug, PartialEq, Eq, Structural, Clone, Copy)]
pub enum CommandError {
    /// The first element names no known command.
    UnknownCommand,
    /// The element count is outside the variant's accepted range.
    ArityError,
    /// A recognized command with a malformed argument: a `SET` option label
    /// other than `px`, or a time-to-live that is not a decimal number.
    ArgumentError,
}

/// ASCII upper case of one byte.
pub open spec fn upper(b: u8) -> u8 {
    if 97 <= b <= 122 {
        (b - 32) as u8
    } else {
        b
    }
}

/// ASCII upper case of a byte string.
pub open spec fn upper_seq(s: Seq<u8>) -> Seq<u8> {
    s.map_values(|b: u8| upper(b))
}

pub open spec fn name_ping() -> Seq<u8> {
    seq!['P' as u8, 'I' as u8, 'N' as u8, 'G' as u8]
}

pub open spec fn name_echo() -> Seq<u8> {
    seq!['E' as u8, 'C' as u8, 'H' as u8, 'O' as u8]
}

pub open spec fn name_set() -> Seq<u8> {
    seq!['S' as u8, 'E' as u8, 'T' as u8]
}

pub open spec fn name_get() -> Seq<u8> {
    seq!['G' as u8, 'E' as u8, 'T' as u8]
}

pub open spec fn name_config() -> Seq<u8> {
    seq!['C' as u8, 'O' as u8, 'N' as u8, 'F' as u8, 'I' as u8, 'G' as u8]
}

/// The option label that introduces a `SET` time-to-live, in milliseconds.
pub open spec fn label_px() -> Seq<u8> {
    seq!['p' as u8, 'x' as u8]
}

/// A valid time-to-live argument: one to nineteen ASCII digits, so that its
/// value always fits in 64 bits.
pub open spec fn valid_ttl(s: Seq<u8>) -> bool {
    1 <= s.len() <= 19 && all_digits(s)
}

/// What `parse` makes of a frame, for every frame.
pub open spec fn spec_parse(f: Seq<Seq<u8>>) -> Result<CommandV, CommandError> {
    if f.len() == 0 {
        Err(CommandError::ArityError)
    } else {
        let name = upper_seq(f[0]);
        if name == name_ping() {
            Ok(CommandV::Ping)
        } else if name == name_echo() {
            if f.len() == 2 {
                Ok(CommandV::Echo { message: f[1] })
            } else {
                Err(CommandError::ArityError)
            }
        } else if name == name_set() {
            if f.len() == 3 {
                Ok(CommandV::SetValue { key: f[1], value: f[2], ttl_ms: Option::None })
            } else if f.len() == 5 {
                if f[3] != label_px() {
                    Err(CommandError::ArgumentError)
                } else if valid_ttl(f[4]) {
                    Ok(
                        CommandV::SetValue {
                            key: f[1],
                            value: f[2],
                            ttl_ms: Option::Some(digits_val(f[4]) as u64),
                        },
                    )
                } else {
                    Err(CommandError::ArgumentError)
                }
            } else {
                Err(CommandError::ArityError)
            }
        } else if name == name_get() {
            if f.len() == 2 {
                Ok(CommandV::Get { key: f[1] })
            } else {
                Err(CommandError::ArityError)
            }
        } else if name == name_config() {
            if f.len() == 3 {
                if upper_seq(f[1]) == name_get() {
                    Ok(CommandV::ConfigGet { parameter: f[2] })
                } else {
                    Err(CommandError::UnknownCommand)
                }
            } else {
                Err(CommandError::ArityError)
            }
        } else {
            Err(CommandError::UnknownCommand)
        }
    }
}

fn to_upper_vec(s: &Vec<u8>) -> (r: Vec<u8>)
    ensures
        r@ == upper_seq(s@),
{
    let n = s.len();
    let mut r: Vec<u8> = Vec::new();
    let mut i: usize = 0;
    while i < n
        invariant
            n == s.len(),
            i <= n,
            r@ == upper_seq(s@).take(i as int),
        decreases n - i,
    {
        let b = s[i];
        if 97 <= b && b <= 122 {
            r.push(b - 32);
        } else {
            r.push(b);
        }
        assert(r@ =~= upper_seq(s@).take(i as int + 1));
        i += 1;
    }
    assert(upper_seq(s@).take(n as int) =~= upper_seq(s@));
    r
}

fn ping_bytes() -> (r: Vec<u8>)
    ensures
        r@ == name_ping(),
{
    let mut v: Vec<u8> = Vec::new();
    v.push(80);
    v.push(73);
    v.push(78);
    v.push(71);
    assert(v@ =~= name_ping());
    v
}

fn echo_bytes() -> (r: Vec<u8>)
    ensures
        r@ == name_echo(),
{
    let mut v: Vec<u8> = Vec::new();
    v.push(69);
    v.push(67);
    v.push(72);
    v.push(79);
    assert(v@ =~= name_echo());
    v
}

fn set_bytes() -> (r: Vec<u8>)
    ensures
        r@ == name_set(),
{
    let mut v: Vec<u8> = Vec::new();
    v.push(83);
    v.push(69);
    v.push(84);
    assert(v@ =~= name_set());
    v
}

fn get_bytes() -> (r: Vec<u8>)
    ensures
        r@ == name_get(),
{
    let mut v: Vec<u8> = Vec::new();
    v.push(71);
    v.push(69);
    v.push(84);
    assert(v@ =~= name_get());
    v
}

fn config_bytes() -> (r: Vec<u8>)
    ensures
        r@ == name_config(),
{
    let mut v: Vec<u8> = Vec::new();
    v.push(67);
    v.push(79);
    v.push(78);
    v.push(70);
    v.push(73);
    v.push(71);
    assert(v@ =~= name_config());
    v
}

fn px_bytes() -> (r: Vec<u8>)
    ensures
        r@ == label_px(),
{
    let mut v: Vec<u8> = Vec::new();
    v.push(112);
    v.push(120);
    assert(v@ =~= label_px());
    v
}

/// Reads a time-to-live argument: the decimal value when `s` is a valid
/// time-to-live, absent otherwise.
fn parse_ttl(s: &Vec<u8>) -> (r: Option<u64>)
    ensures
        match r {
            Option::Some(v) => valid_ttl(s@) && v == digits_val(s@),
            Option::None => !valid_ttl(s@),
        },
{
    let n = s.len();
    if n < 1 || n > 19 {
        return None;
    }
    let mut val: u64 = 0;
    let mut i: usize = 0;
    while i < n
        invariant
            n == s.len(),
            1 <= n <= 19,
            i <= n,
            forall|x: int| 0 <= x < i ==> crate::bytes::is_digit(s@[x]),
            val == digits_val(s@.take(i as int)),
            val < pow10(i as nat),
        decreases n - i,
    {
        let b = s[i];
        if !(48 <= b && b <= 57) {
            assert(!all_digits(s@));
            return None;
        }
        proof {
            lemma_digits_val_bound(s@.take(i as int));
            assert(pow10(i as nat) <= pow10(18)) by {
                crate::bytes::lemma_pow10_mono(i as nat, 18);
            }
            assert(pow10(18) == 1000000000000000000) by {
                reveal_with_fuel(pow10, 20);
            }
        }
        val = val * 10 + ((b - 48) as u64);
        proof {
            let s1 = s@.take(i as int + 1);
            assert(s1.drop_last() =~= s@.take(i as int));
            assert(s1.last() == s@[i as int]);
        }
        i += 1;
    }
    proof {
        assert(s@.take(n as int) =~= s@);
    }
    Some(val)
}

/// Converts a decoded frame into a validated command, or says why the frame
/// is no command: an unknown keyword, a wrong argument count, or a malformed
/// `SET` option.
pub fn parse(f: &Frame) -> (r: Result<Command, CommandError>)
    ensures
        match r {
            Ok(c) => spec_parse(f@) == Ok::<CommandV, CommandError>(c@),
            Err(e) => spec_parse(f@) == Err::<CommandV, CommandError>(e),
        },
{
    proof {
        assert(f@.len() == f.elems@.len());
        assert(forall|i: int| 0 <= i < f.elems@.len() ==> f@[i] == f.elems@[i]@);
    }
    if f.elems.len() == 0 {
        return Err(CommandError::ArityError);
    }
    let name = to_upper_vec(&f.elems[0]);
    if bytes_eq(&name, &ping_bytes()) {
        Ok(Command::Ping)
    } else if bytes_eq(&name, &echo_bytes()) {
        if f.elems.len() == 2 {
            Ok(Command::Echo { message: f.elems[1].clone() })
        } else {
            Err(CommandError::ArityError)
        }
    } else if bytes_eq(&name, &set_bytes()) {
        if f.elems.len() == 3 {
            Ok(
                Command::SetValue {
                    key: f.elems[1].clone(),
                    value: f.elems[2].clone(),
                    ttl_ms: None,
                },
            )
        } else if f.elems.len() == 5 {
            if !bytes_eq(&f.elems[3], &px_bytes()) {
                Err(CommandError::ArgumentError)
            } else {
                match parse_ttl(&f.elems[4]) {
                    Some(t) => {
                        proof {
                            lemma_digits_val_bound(f@[4]);
                            assert(pow10(19) == 10000000000000000000) by {
                                reveal_with_fuel(pow10, 21);
                            }
                        }
                        Ok(
                            Command::SetValue {
                                key: f.elems[1].clone(),
                                value: f.elems[2].clone(),
                                ttl_ms: Some(t),
                            },
                        )
                    },
                    None => Err(CommandError::ArgumentError),
                }
            }
        } else {
            Err(CommandError::ArityError)
        }
    } else if bytes_eq(&name, &get_bytes()) {
        if f.elems.len() == 2 {
            Ok(Command::Get { key: f.elems[1].clone() })
        } else {
            Err(CommandError::ArityError)
        }
    } else if bytes_eq(&name, &config_bytes()) {
        if f.elems.len() == 3 {
            let sub = to_upper_vec(&f.elems[1]);
            if bytes_eq(&sub, &get_bytes()) {
                Ok(Command::ConfigGet { parameter: f.elems[2].clone() })
            } else {
                Err(CommandError::UnknownCommand)
            }
        } else {
            Err(CommandError::ArityError)
        }
    } else {
        Err(CommandError::UnknownCommand)
    }
}

} // verus!
