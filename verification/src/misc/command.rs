//! The commands that a user types at a node.

use vstd::prelude::*;

use super::text::{
    decimal, decimal_text, law_decimal_round_trip, law_large_numbers_are_refused, parse_decimal,
    str_eq, words_view,
};
use crate::ip::protocol::Protocol;
use crate::ip::Ipv4Addr;
use crate::link::interface::{InterfaceId, State};
use crate::tcp::socket::{SocketId, SocketSide};
use crate::tcp::Port;

verus! {

/// Why a command cannot be run.
#[derive(Debug, Clone, Copy, PartialEq, Eq, Structural)]
pub enum CommandError {
    /// A quoted string without its ending quote
    MismatchedQuotes,
    WrongNumberOfArguments { expected: usize, received: usize },
    InvalidAddress,
    InvalidNumber,
    UnrecognizedProtocol(u8),
    /// unrecognized arg to block, expected y|n
    InvalidBlock,
    UnknownSide,
}

/// A command of a node that speaks IP only. `B` are bytes.
pub enum NodeCommand<B> {
    Interfaces,
    Routes,
    Quit,
    Send { their_ip: Ipv4Addr, protocol: Protocol, data: B },
    Toggle { id: InterfaceId, state: State },
    Unknown,
}

/// A command of a node that speaks TCP. `T` is text and `B` are bytes.
pub enum TcpCommand<T, B> {
    Toggle { id: InterfaceId, state: State },
    Interfaces,
    Routes,
    Sockets,
    Window { socket_id: SocketId },
    Accept { port: Port },
    Connect { ip: Ipv4Addr, port: Port, reno: bool },
    Send { socket_id: SocketId, data: B },
    Recv { socket_id: SocketId, num_bytes: usize, block: bool },
    Shutdown { socket_id: SocketId, side: SocketSide },
    Close { socket_id: SocketId },
    SendFile { filename: T, ip: Ipv4Addr, port: Port, reno: bool },
    RecvFile { filename: T, port: Port },
    Quit,
    Help,
    Unknown,
}

impl View for NodeCommand<Vec<u8>> {
    type V = NodeCommand<Seq<u8>>;

    open spec fn view(&self) -> NodeCommand<Seq<u8>> {
        match self {
            NodeCommand::Interfaces => NodeCommand::Interfaces,
            NodeCommand::Routes => NodeCommand::Routes,
            NodeCommand::Quit => NodeCommand::Quit,
            NodeCommand::Send { their_ip, protocol, data } => NodeCommand::Send {
                their_ip: *their_ip,
                protocol: *protocol,
                data: data@,
            },
            NodeCommand::Toggle { id, state } => NodeCommand::Toggle { id: *id, state: *state },
            NodeCommand::Unknown => NodeCommand::Unknown,
        }
    }
}

impl View for TcpCommand<String, Vec<u8>> {
    type V = TcpCommand<Seq<char>, Seq<u8>>;

    open spec fn view(&self) -> TcpCommand<Seq<char>, Seq<u8>> {
        match self {
            TcpCommand::Toggle { id, state } => TcpCommand::Toggle { id: *id, state: *state },
            TcpCommand::Interfaces => TcpCommand::Interfaces,
            TcpCommand::Routes => TcpCommand::Routes,
            TcpCommand::Sockets => TcpCommand::Sockets,
            TcpCommand::Window { socket_id } => TcpCommand::Window { socket_id: *socket_id },
            TcpCommand::Accept { port } => TcpCommand::Accept { port: *port },
            TcpCommand::Connect { ip, port, reno } => TcpCommand::Connect {
                ip: *ip,
                port: *port,
                reno: *reno,
            },
            TcpCommand::Send { socket_id, data } => TcpCommand::Send {
                socket_id: *socket_id,
                data: data@,
            },
            TcpCommand::Recv { socket_id, num_bytes, block } => TcpCommand::Recv {
                socket_id: *socket_id,
                num_bytes: *num_bytes,
                block: *block,
            },
            TcpCommand::Shutdown { socket_id, side } => TcpCommand::Shutdown {
                socket_id: *socket_id,
                side: *side,
            },
            TcpCommand::Close { socket_id } => TcpCommand::Close { socket_id: *socket_id },
            TcpCommand::SendFile { filename, ip, port, reno } => TcpCommand::SendFile {
                filename: filename@,
                ip: *ip,
                port: *port,
                reno: *reno,
            },
            TcpCommand::RecvFile { filename, port } => TcpCommand::RecvFile {
                filename: filename@,
                port: *port,
            },
            TcpCommand::Quit => TcpCommand::Quit,
            TcpCommand::Help => TcpCommand::Help,
            TcpCommand::Unknown => TcpCommand::Unknown,
        }
    }
}

#[verifier::external_type_specification]
#[verifier::external_body]
pub struct ExMismatchedQuotes(shellwords::MismatchedQuotes);

/// The words of a line as the Bourne shell splits it. None if a quote is not ended.
pub uninterp spec fn shell_words(line: Seq<char>) -> Option<Seq<Seq<char>>>;

/// `shellwords::split`: the words are a function of the line, and so is whether there is an error.
#[verifier::external_body]
fn split_words(line: &str) -> (result: Result<Vec<String>, shellwords::MismatchedQuotes>)
    ensures
        shell_words(line@) == match result {
            Ok(words) => Some(words_view(words@)),
            Err(_) => None,
        },
{
    shellwords::split(line)
}

/// Splits a line into words, which may be quoted.
pub fn tokenize(line: &str) -> (result: Result<Vec<String>, CommandError>)
    ensures
        match result {
            Ok(words) => shell_words(line@) == Some(words_view(words@)),
            Err(e) => shell_words(line@) is None && e == CommandError::MismatchedQuotes,
        },
{
    match split_words(line) {
        Ok(words) => Ok(words),
        Err(_) => Err(CommandError::MismatchedQuotes),
    }
}

/// Whether a word is one of two.
fn is_either(word: &String, a: &str, b: &str) -> (either: bool)
    ensures
        either == (word@ == a@ || word@ == b@),
{
    str_eq(word.as_str(), a) || str_eq(word.as_str(), b)
}

/// The error for a command with another number of arguments than expected.
pub open spec fn wrong_number<A>(words: Seq<Seq<char>>, expected: int) -> Result<A, CommandError> {
    Err(
        CommandError::WrongNumberOfArguments {
            expected: expected as usize,
            received: (words.len() - 1) as usize,
        },
    )
}

pub fn check_len(tokens: &Vec<String>, expected: usize) -> (result: Result<(), CommandError>)
    requires
        tokens@.len() > 0,
    ensures
        result == if tokens@.len() == expected + 1 {
            Ok::<(), CommandError>(())
        } else {
            wrong_number(words_view(tokens@), expected as int)
        },
{
    if tokens.len() - 1 != expected {
        Err(CommandError::WrongNumberOfArguments { expected, received: tokens.len() - 1 })
    } else {
        Ok(())
    }
}

/// The number in a word.
pub open spec fn number(word: Seq<char>, max: int) -> Result<int, CommandError> {
    match decimal(word, max) {
        Some(n) => Ok(n),
        None => Err(CommandError::InvalidNumber),
    }
}

fn parse_word(word: &String, max: u64) -> (result: Result<u64, CommandError>)
    ensures
        match result {
            Ok(n) => number(word@, max as int) == Ok::<int, CommandError>(n as int) && n <= max,
            Err(e) => number(word@, max as int) == Err::<int, CommandError>(e),
        },
{
    match parse_decimal(word.as_str(), max) {
        Some(n) => Ok(n),
        None => Err(CommandError::InvalidNumber),
    }
}

/// The single number that a command takes.
pub open spec fn single_number(words: Seq<Seq<char>>, max: int) -> Result<int, CommandError> {
    if words.len() != 2 {
        wrong_number(words, 1)
    } else {
        number(words[1], max)
    }
}

pub fn parse_num(tokens: &Vec<String>, max: u64) -> (result: Result<u64, CommandError>)
    requires
        tokens@.len() > 0,
    ensures
        match result {
            Ok(n) => single_number(words_view(tokens@), max as int) == Ok::<int, CommandError>(
                n as int,
            ) && n <= max,
            Err(e) => single_number(words_view(tokens@), max as int) == Err::<int, CommandError>(e),
        },
{
    check_len(tokens, 1)?;
    parse_word(&tokens[1], max)
}

/// The bytes of a word.
fn word_bytes(word: &String) -> (bytes: Vec<u8>)
    ensures
        bytes@ == vstd::utf8::encode_utf8(word@),
{
    vstd::slice::slice_to_vec(word.as_str().as_bytes())
}

/// Which word of a command is an address, if one is.
pub open spec fn address_index(words: Seq<Seq<char>>) -> Option<int> {
    let i = if words.len() == 0 {
        0
    } else if words[0] == "connect"@ || words[0] == "c"@ {
        1
    } else if words[0] == "send_file"@ || words[0] == "sf"@ {
        2
    } else {
        0int
    };
    if 0 < i < words.len() {
        Some(i)
    } else {
        None
    }
}

/// The address that a command names, as text, if it names one.
pub fn address_word(tokens: &Vec<String>) -> (word: Option<&String>)
    ensures
        match word {
            Some(word) => address_index(words_view(tokens@)) is Some && word@ == words_view(
                tokens@,
            )[address_index(words_view(tokens@))->0],
            None => address_index(words_view(tokens@)) is None,
        },
{
    if tokens.len() == 0 {
        return None;
    }
    let i: usize = if is_either(&tokens[0], "connect", "c") {
        1
    } else if is_either(&tokens[0], "send_file", "sf") {
        2
    } else {
        0
    };
    if 0 < i && i < tokens.len() {
        Some(&tokens[i])
    } else {
        None
    }
}

/// What comes of reading the arguments of `send` at a node that speaks IP only: an address, a
/// protocol number and the data. `addr` is what the second word is as an address.
pub open spec fn node_send(words: Seq<Seq<char>>, addr: Option<Ipv4Addr>) -> Result<
    NodeCommand<Seq<u8>>,
    CommandError,
> {
    if words.len() != 4 {
        wrong_number(words, 3)
    } else {
        match addr {
            None => Err(CommandError::InvalidAddress),
            Some(their_ip) => match number(words[2], 255) {
                Err(e) => Err(e),
                Ok(n) => match Protocol::of_number(n as u8) {
                    Some(protocol) => Ok(
                        NodeCommand::Send {
                            their_ip,
                            protocol,
                            data: vstd::utf8::encode_utf8(words[3]),
                        },
                    ),
                    None => Err(CommandError::UnrecognizedProtocol(n as u8)),
                },
            },
        }
    }
}

/// The command that the words stand for at a node that speaks IP only.
pub open spec fn node_command(words: Seq<Seq<char>>, addr: Option<Ipv4Addr>) -> Result<
    NodeCommand<Seq<u8>>,
    CommandError,
> {
    let cmd = words[0];
    if cmd == "send"@ {
        node_send(words, addr)
    } else if cmd == "up"@ || cmd == "down"@ {
        match single_number(words, usize::MAX as int) {
            Ok(id) => Ok(NodeCommand::Toggle { id: id as usize, state: State::named(cmd)->0 }),
            Err(e) => Err(e),
        }
    } else if cmd == "interfaces"@ || cmd == "li"@ {
        Ok(NodeCommand::Interfaces)
    } else if cmd == "routes"@ || cmd == "lr"@ {
        Ok(NodeCommand::Routes)
    } else if cmd == "q"@ {
        Ok(NodeCommand::Quit)
    } else {
        Ok(NodeCommand::Unknown)
    }
}

/// Reads the arguments of `send`: an address, a protocol number and the data.
pub fn parse_node_send_args(tokens: &Vec<String>, addr: Option<Ipv4Addr>) -> (result: Result<
    NodeCommand<Vec<u8>>,
    CommandError,
>)
    requires
        tokens@.len() > 0,
    ensures
        match result {
            Ok(cmd) => node_send(words_view(tokens@), addr) == Ok::<
                NodeCommand<Seq<u8>>,
                CommandError,
            >(cmd@),
            Err(e) => node_send(words_view(tokens@), addr) == Err::<
                NodeCommand<Seq<u8>>,
                CommandError,
            >(e),
        },
{
    check_len(tokens, 3)?;
    let their_ip: Ipv4Addr = match addr {
        Some(ip) => ip,
        None => return Err(CommandError::InvalidAddress),
    };
    let protocol_num: u64 = parse_word(&tokens[2], 255)?;
    match Protocol::try_from(protocol_num as u8) {
        Ok(protocol) => Ok(
            NodeCommand::Send { their_ip, protocol, data: word_bytes(&tokens[3]) },
        ),
        Err(_) => Err(CommandError::UnrecognizedProtocol(protocol_num as u8)),
    }
}

/// Reads a command of a node that speaks IP only. `addr` is what the second word is as an address.
pub fn parse_node_command(tokens: &Vec<String>, addr: Option<Ipv4Addr>) -> (result: Result<
    NodeCommand<Vec<u8>>,
    CommandError,
>)
    requires
        tokens@.len() > 0,
    ensures
        match result {
            Ok(cmd) => node_command(words_view(tokens@), addr) == Ok::<
                NodeCommand<Seq<u8>>,
                CommandError,
            >(cmd@),
            Err(e) => node_command(words_view(tokens@), addr) == Err::<
                NodeCommand<Seq<u8>>,
                CommandError,
            >(e),
        },
{
    let cmd = &tokens[0];
    assert(words_view(tokens@)[0] == cmd@);
    if str_eq(cmd.as_str(), "send") {
        parse_node_send_args(tokens, addr)
    } else if is_either(cmd, "up", "down") {
        let id: u64 = parse_num(tokens, usize::MAX as u64)?;
        let state = State::from_str(cmd.as_str()).unwrap();
        Ok(NodeCommand::Toggle { id: id as usize, state })
    } else if is_either(cmd, "interfaces", "li") {
        Ok(NodeCommand::Interfaces)
    } else if is_either(cmd, "routes", "lr") {
        Ok(NodeCommand::Routes)
    } else if str_eq(cmd.as_str(), "q") {
        Ok(NodeCommand::Quit)
    } else {
        Ok(NodeCommand::Unknown)
    }
}

/// Whether the congestion control is asked for: by the word `reno` after the `n` arguments that a
/// command takes otherwise.
pub open spec fn asks_reno(words: Seq<Seq<char>>, n: int) -> bool {
    words.len() == n + 2 && words[n + 1] == "reno"@
}

fn has_reno(tokens: &Vec<String>, n: usize) -> (reno: bool)
    requires
        n < usize::MAX - 2,
    ensures
        reno == asks_reno(words_view(tokens@), n as int),
{
    tokens.len() == n + 2 && str_eq(tokens[n + 1].as_str(), "reno")
}

/// An address and a port, of which `addr` and `port` are what came of reading them.
pub open spec fn address_and_port(addr: Option<Ipv4Addr>, port: Seq<char>) -> Result<
    (Ipv4Addr, Port),
    CommandError,
> {
    match addr {
        None => Err(CommandError::InvalidAddress),
        Some(ip) => match number(port, 65535) {
            Ok(port) => Ok((ip, port as u16)),
            Err(e) => Err(e),
        },
    }
}

fn parse_address_and_port(addr: Option<Ipv4Addr>, port: &String) -> (result: Result<
    (Ipv4Addr, Port),
    CommandError,
>)
    ensures
        result == address_and_port(addr, port@),
{
    let ip: Ipv4Addr = match addr {
        Some(ip) => ip,
        None => return Err(CommandError::InvalidAddress),
    };
    let port: u64 = parse_word(port, 65535)?;
    Ok((ip, port as u16))
}

/// The arguments of `connect`: address, port and maybe `reno`.
pub open spec fn connect_args(words: Seq<Seq<char>>, addr: Option<Ipv4Addr>) -> Result<
    (Ipv4Addr, Port, bool),
    CommandError,
> {
    if words.len() != 3 && !asks_reno(words, 2) {
        wrong_number(words, 2)
    } else {
        match address_and_port(addr, words[2]) {
            Ok((ip, port)) => Ok((ip, port, asks_reno(words, 2))),
            Err(e) => Err(e),
        }
    }
}

pub fn parse_tcp_address(tokens: &Vec<String>, addr: Option<Ipv4Addr>) -> (result: Result<
    (Ipv4Addr, Port, bool),
    CommandError,
>)
    requires
        tokens@.len() > 0,
    ensures
        result == connect_args(words_view(tokens@), addr),
{
    let reno: bool = has_reno(tokens, 2);
    if !reno {
        check_len(tokens, 2)?;
    }
    let (ip, port) = parse_address_and_port(addr, &tokens[2])?;
    Ok((ip, port, reno))
}

/// The arguments of `send`: socket and data.
pub open spec fn send_args(words: Seq<Seq<char>>) -> Result<(SocketId, Seq<u8>), CommandError> {
    if words.len() != 3 {
        wrong_number(words, 2)
    } else {
        match number(words[1], usize::MAX as int) {
            Ok(id) => Ok((id as usize, vstd::utf8::encode_utf8(words[2]))),
            Err(e) => Err(e),
        }
    }
}

pub fn parse_send_args(tokens: &Vec<String>) -> (result: Result<(SocketId, Vec<u8>), CommandError>)
    requires
        tokens@.len() > 0,
    ensures
        match result {
            Ok((id, data)) => send_args(words_view(tokens@)) == Ok::<
                (SocketId, Seq<u8>),
                CommandError,
            >((id, data@)),
            Err(e) => send_args(words_view(tokens@)) == Err::<(SocketId, Seq<u8>), CommandError>(e),
        },
{
    check_len(tokens, 2)?;
    let id: u64 = parse_word(&tokens[1], usize::MAX as u64)?;
    Ok((id as usize, word_bytes(&tokens[2])))
}

/// The arguments of `recv`: socket, number of bytes and maybe whether to wait for all of them.
pub open spec fn recv_args(words: Seq<Seq<char>>) -> Result<(SocketId, usize, bool), CommandError> {
    if words.len() != 3 && words.len() != 4 {
        wrong_number(words, 3)
    } else if words.len() == 4 && words[3] != "y"@ && words[3] != "n"@ {
        Err(CommandError::InvalidBlock)
    } else {
        match (number(words[1], usize::MAX as int), number(words[2], usize::MAX as int)) {
            (Ok(id), Ok(n)) => Ok(
                (id as usize, n as usize, words.len() == 4 && words[3] == "y"@),
            ),
            _ => Err(CommandError::InvalidNumber),
        }
    }
}

pub fn parse_recv_args(tokens: &Vec<String>) -> (result: Result<
    (SocketId, usize, bool),
    CommandError,
>)
    requires
        tokens@.len() > 0,
    ensures
        result == recv_args(words_view(tokens@)),
{
    // tokens = [cmd_name, args...] that's why we have 3 not 2
    let block: bool = if tokens.len() != 3 {
        check_len(tokens, 3)?;
        if str_eq(tokens[3].as_str(), "y") {
            true
        } else if str_eq(tokens[3].as_str(), "n") {
            proof {
                reveal_strlit("y");
                reveal_strlit("n");
                assert("y"@[0] != "n"@[0]);
            }
            false
        } else {
            return Err(CommandError::InvalidBlock);
        }
    } else {
        false
    };
    let id: u64 = parse_word(&tokens[1], usize::MAX as u64)?;
    let n: u64 = parse_word(&tokens[2], usize::MAX as u64)?;
    Ok((id as usize, n as usize, block))
}

/// The arguments of `shutdown`: socket and maybe a side, which is the write side otherwise.
pub open spec fn shutdown_args(words: Seq<Seq<char>>) -> Result<
    (SocketId, SocketSide),
    CommandError,
> {
    if words.len() != 2 && words.len() != 3 {
        wrong_number(words, 2)
    } else if words.len() == 3 && SocketSide::named(words[2]) is None {
        Err(CommandError::UnknownSide)
    } else {
        match number(words[1], usize::MAX as int) {
            Ok(id) => Ok(
                (
                    id as usize,
                    if words.len() == 3 {
                        SocketSide::named(words[2])->0
                    } else {
                        SocketSide::Write
                    },
                ),
            ),
            Err(e) => Err(e),
        }
    }
}

pub fn parse_shutdown_args(tokens: &Vec<String>) -> (result: Result<
    (SocketId, SocketSide),
    CommandError,
>)
    requires
        tokens@.len() > 0,
    ensures
        result == shutdown_args(words_view(tokens@)),
{
    // tokens = [cmd_name, args...] that's why we have 2 not 1
    let side = if tokens.len() != 2 {
        check_len(tokens, 2)?;
        match SocketSide::from_str(tokens[2].as_str()) {
            Ok(side) => side,
            Err(_) => return Err(CommandError::UnknownSide),
        }
    } else {
        SocketSide::Write
    };
    let id: u64 = parse_word(&tokens[1], usize::MAX as u64)?;
    Ok((id as usize, side))
}

/// The arguments of `send_file`: file name, address, port and maybe `reno`.
pub open spec fn send_file_args(words: Seq<Seq<char>>, addr: Option<Ipv4Addr>) -> Result<
    (Seq<char>, Ipv4Addr, Port, bool),
    CommandError,
> {
    if words.len() != 4 && !asks_reno(words, 3) {
        wrong_number(words, 3)
    } else {
        match address_and_port(addr, words[3]) {
            Ok((ip, port)) => Ok((words[1], ip, port, asks_reno(words, 3))),
            Err(e) => Err(e),
        }
    }
}

pub fn parse_send_file_args(tokens: &Vec<String>, addr: Option<Ipv4Addr>) -> (result: Result<
    (String, Ipv4Addr, Port, bool),
    CommandError,
>)
    requires
        tokens@.len() > 0,
    ensures
        match result {
            Ok((filename, ip, port, reno)) => send_file_args(words_view(tokens@), addr) == Ok::<
                (Seq<char>, Ipv4Addr, Port, bool),
                CommandError,
            >((filename@, ip, port, reno)),
            Err(e) => send_file_args(words_view(tokens@), addr) == Err::<
                (Seq<char>, Ipv4Addr, Port, bool),
                CommandError,
            >(e),
        },
{
    let reno: bool = has_reno(tokens, 3);
    if !reno {
        check_len(tokens, 3)?;
    }
    let (ip, port) = parse_address_and_port(addr, &tokens[3])?;
    Ok((tokens[1].clone(), ip, port, reno))
}

/// The arguments of `recv_file`: file name and port.
pub open spec fn recv_file_args(words: Seq<Seq<char>>) -> Result<(Seq<char>, Port), CommandError> {
    if words.len() != 3 {
        wrong_number(words, 2)
    } else {
        match number(words[2], 65535) {
            Ok(port) => Ok((words[1], port as u16)),
            Err(e) => Err(e),
        }
    }
}

pub fn parse_recv_file_args(tokens: &Vec<String>) -> (result: Result<(String, Port), CommandError>)
    requires
        tokens@.len() > 0,
    ensures
        match result {
            Ok((filename, port)) => recv_file_args(words_view(tokens@)) == Ok::<
                (Seq<char>, Port),
                CommandError,
            >((filename@, port)),
            Err(e) => recv_file_args(words_view(tokens@)) == Err::<(Seq<char>, Port), CommandError>(
                e,
            ),
        },
{
    check_len(tokens, 2)?;
    let port: u64 = parse_word(&tokens[2], 65535)?;
    Ok((tokens[1].clone(), port as u16))
}

/// The command that the words stand for at a node that speaks TCP. `addr` is what the word that
/// `address_index` points to is as an address.
pub open spec fn tcp_command(words: Seq<Seq<char>>, addr: Option<Ipv4Addr>) -> Result<
    TcpCommand<Seq<char>, Seq<u8>>,
    CommandError,
> {
    let cmd = words[0];
    let max = usize::MAX as int;
    if cmd == "up"@ || cmd == "down"@ {
        match single_number(words, max) {
            Ok(id) => Ok(TcpCommand::Toggle { id: id as usize, state: State::named(cmd)->0 }),
            Err(e) => Err(e),
        }
    } else if cmd == "interfaces"@ || cmd == "li"@ {
        Ok(TcpCommand::Interfaces)
    } else if cmd == "routes"@ || cmd == "lr"@ {
        Ok(TcpCommand::Routes)
    } else if cmd == "sockets"@ || cmd == "ls"@ {
        Ok(TcpCommand::Sockets)
    } else if cmd == "window"@ || cmd == "lw"@ {
        match single_number(words, max) {
            Ok(id) => Ok(TcpCommand::Window { socket_id: id as usize }),
            Err(e) => Err(e),
        }
    } else if cmd == "accept"@ || cmd == "a"@ {
        match single_number(words, 65535) {
            Ok(port) => Ok(TcpCommand::Accept { port: port as u16 }),
            Err(e) => Err(e),
        }
    } else if cmd == "connect"@ || cmd == "c"@ {
        match connect_args(words, addr) {
            Ok((ip, port, reno)) => Ok(TcpCommand::Connect { ip, port, reno }),
            Err(e) => Err(e),
        }
    } else if cmd == "send"@ || cmd == "s"@ {
        match send_args(words) {
            Ok((socket_id, data)) => Ok(TcpCommand::Send { socket_id, data }),
            Err(e) => Err(e),
        }
    } else if cmd == "recv"@ || cmd == "r"@ {
        match recv_args(words) {
            Ok((socket_id, num_bytes, block)) => Ok(
                TcpCommand::Recv { socket_id, num_bytes, block },
            ),
            Err(e) => Err(e),
        }
    } else if cmd == "shutdown"@ || cmd == "sd"@ {
        match shutdown_args(words) {
            Ok((socket_id, side)) => Ok(TcpCommand::Shutdown { socket_id, side }),
            Err(e) => Err(e),
        }
    } else if cmd == "close"@ || cmd == "cl"@ {
        match single_number(words, max) {
            Ok(id) => Ok(TcpCommand::Close { socket_id: id as usize }),
            Err(e) => Err(e),
        }
    } else if cmd == "send_file"@ || cmd == "sf"@ {
        match send_file_args(words, addr) {
            Ok((filename, ip, port, reno)) => Ok(
                TcpCommand::SendFile { filename, ip, port, reno },
            ),
            Err(e) => Err(e),
        }
    } else if cmd == "recv_file"@ || cmd == "rf"@ {
        match recv_file_args(words) {
            Ok((filename, port)) => Ok(TcpCommand::RecvFile { filename, port }),
            Err(e) => Err(e),
        }
    } else if cmd == "quit"@ || cmd == "q"@ {
        Ok(TcpCommand::Quit)
    } else if cmd == "help"@ || cmd == "h"@ {
        Ok(TcpCommand::Help)
    } else {
        Ok(TcpCommand::Unknown)
    }
}

/// Reads a command of a node that speaks TCP. `addr` is what the word that `address_word` gives is
/// as an address.
pub fn parse_tcp_command(tokens: &Vec<String>, addr: Option<Ipv4Addr>) -> (result: Result<
    TcpCommand<String, Vec<u8>>,
    CommandError,
>)
    requires
        tokens@.len() > 0,
    ensures
        match result {
            Ok(cmd) => tcp_command(words_view(tokens@), addr) == Ok::<
                TcpCommand<Seq<char>, Seq<u8>>,
                CommandError,
            >(cmd@),
            Err(e) => tcp_command(words_view(tokens@), addr) == Err::<
                TcpCommand<Seq<char>, Seq<u8>>,
                CommandError,
            >(e),
        },
{
    let cmd = &tokens[0];
    assert(words_view(tokens@)[0] == cmd@);
    let max: u64 = usize::MAX as u64;
    if is_either(cmd, "up", "down") {
        let id: u64 = parse_num(tokens, max)?;
        let state = State::from_str(cmd.as_str()).unwrap();
        Ok(TcpCommand::Toggle { id: id as usize, state })
    } else if is_either(cmd, "interfaces", "li") {
        Ok(TcpCommand::Interfaces)
    } else if is_either(cmd, "routes", "lr") {
        Ok(TcpCommand::Routes)
    } else if is_either(cmd, "sockets", "ls") {
        Ok(TcpCommand::Sockets)
    } else if is_either(cmd, "window", "lw") {
        let id: u64 = parse_num(tokens, max)?;
        Ok(TcpCommand::Window { socket_id: id as usize })
    } else if is_either(cmd, "accept", "a") {
        let port: u64 = parse_num(tokens, 65535)?;
        Ok(TcpCommand::Accept { port: port as u16 })
    } else if is_either(cmd, "connect", "c") {
        let (ip, port, reno) = parse_tcp_address(tokens, addr)?;
        Ok(TcpCommand::Connect { ip, port, reno })
    } else if is_either(cmd, "send", "s") {
        let (socket_id, data) = parse_send_args(tokens)?;
        Ok(TcpCommand::Send { socket_id, data })
    } else if is_either(cmd, "recv", "r") {
        let (socket_id, num_bytes, block) = parse_recv_args(tokens)?;
        Ok(TcpCommand::Recv { socket_id, num_bytes, block })
    } else if is_either(cmd, "shutdown", "sd") {
        let (socket_id, side) = parse_shutdown_args(tokens)?;
        Ok(TcpCommand::Shutdown { socket_id, side })
    } else if is_either(cmd, "close", "cl") {
        let id: u64 = parse_num(tokens, max)?;
        Ok(TcpCommand::Close { socket_id: id as usize })
    } else if is_either(cmd, "send_file", "sf") {
        let (filename, ip, port, reno) = parse_send_file_args(tokens, addr)?;
        Ok(TcpCommand::SendFile { filename, ip, port, reno })
    } else if is_either(cmd, "recv_file", "rf") {
        let (filename, port) = parse_recv_file_args(tokens)?;
        Ok(TcpCommand::RecvFile { filename, port })
    } else if is_either(cmd, "quit", "q") {
        Ok(TcpCommand::Quit)
    } else if is_either(cmd, "help", "h") {
        Ok(TcpCommand::Help)
    } else {
        Ok(TcpCommand::Unknown)
    }
}

/// What tells the names of the commands apart: their length and their first two characters.
spec fn name_tag(name: Seq<char>) -> (nat, char, char) {
    (
        name.len(),
        name[0],
        if name.len() > 1 {
            name[1]
        } else {
            ' '
        },
    )
}

proof fn lemma_name_tags()
    ensures
        name_tag("a"@) == (1nat, 'a', ' '),
        name_tag("c"@) == (1nat, 'c', ' '),
        name_tag("s"@) == (1nat, 's', ' '),
        name_tag("r"@) == (1nat, 'r', ' '),
        name_tag("q"@) == (1nat, 'q', ' '),
        name_tag("h"@) == (1nat, 'h', ' '),
        name_tag("w"@) == (1nat, 'w', ' '),
        name_tag("y"@) == (1nat, 'y', ' '),
        name_tag("n"@) == (1nat, 'n', ' '),
        name_tag("up"@) == (2nat, 'u', 'p'),
        name_tag("li"@) == (2nat, 'l', 'i'),
        name_tag("lr"@) == (2nat, 'l', 'r'),
        name_tag("ls"@) == (2nat, 'l', 's'),
        name_tag("lw"@) == (2nat, 'l', 'w'),
        name_tag("sd"@) == (2nat, 's', 'd'),
        name_tag("cl"@) == (2nat, 'c', 'l'),
        name_tag("sf"@) == (2nat, 's', 'f'),
        name_tag("rf"@) == (2nat, 'r', 'f'),
        name_tag("down"@) == (4nat, 'd', 'o'),
        name_tag("send"@) == (4nat, 's', 'e'),
        name_tag("recv"@) == (4nat, 'r', 'e'),
        name_tag("quit"@) == (4nat, 'q', 'u'),
        name_tag("help"@) == (4nat, 'h', 'e'),
        name_tag("read"@) == (4nat, 'r', 'e'),
        name_tag("both"@) == (4nat, 'b', 'o'),
        name_tag("reno"@) == (4nat, 'r', 'e'),
        name_tag("close"@) == (5nat, 'c', 'l'),
        name_tag("write"@) == (5nat, 'w', 'r'),
        name_tag("routes"@) == (6nat, 'r', 'o'),
        name_tag("window"@) == (6nat, 'w', 'i'),
        name_tag("accept"@) == (6nat, 'a', 'c'),
        name_tag("sockets"@) == (7nat, 's', 'o'),
        name_tag("connect"@) == (7nat, 'c', 'o'),
        name_tag("shutdown"@) == (8nat, 's', 'h'),
        name_tag("send_file"@) == (9nat, 's', 'e'),
        name_tag("recv_file"@) == (9nat, 'r', 'e'),
        name_tag("interfaces"@) == (10nat, 'i', 'n'),
{
    reveal_strlit("a");
    reveal_strlit("c");
    reveal_strlit("s");
    reveal_strlit("r");
    reveal_strlit("q");
    reveal_strlit("h");
    reveal_strlit("w");
    reveal_strlit("y");
    reveal_strlit("n");
    reveal_strlit("up");
    reveal_strlit("li");
    reveal_strlit("lr");
    reveal_strlit("ls");
    reveal_strlit("lw");
    reveal_strlit("sd");
    reveal_strlit("cl");
    reveal_strlit("sf");
    reveal_strlit("rf");
    reveal_strlit("down");
    reveal_strlit("send");
    reveal_strlit("recv");
    reveal_strlit("quit");
    reveal_strlit("help");
    reveal_strlit("read");
    reveal_strlit("both");
    reveal_strlit("reno");
    reveal_strlit("close");
    reveal_strlit("write");
    reveal_strlit("routes");
    reveal_strlit("window");
    reveal_strlit("accept");
    reveal_strlit("sockets");
    reveal_strlit("connect");
    reveal_strlit("shutdown");
    reveal_strlit("send_file");
    reveal_strlit("recv_file");
    reveal_strlit("interfaces");
}

/// The commands that take one number: it is the socket, the interface or the port that they are
/// about. With any other number of arguments they are turned down.
pub proof fn law_commands_with_a_number(
    tokens: &Vec<String>,
    addr: Option<Ipv4Addr>,
    result: Result<TcpCommand<String, Vec<u8>>, CommandError>,
    n: int,
)
    requires
        tokens@.len() > 0,
        0 <= n <= usize::MAX,
        tokens@.len() == 2 ==> tokens@[1]@ == decimal_text(n),
        call_ensures(parse_tcp_command, (tokens, addr), result),
    ensures
        ({
            let cmd = tokens@[0]@;
            let known = cmd == "up"@ || cmd == "down"@ || cmd == "window"@ || cmd == "lw"@ || cmd
                == "close"@ || cmd == "cl"@ || cmd == "accept"@ || cmd == "a"@;
            &&& known && tokens@.len() != 2 ==> result == Err::<
                TcpCommand<String, Vec<u8>>,
                CommandError,
            >(
                CommandError::WrongNumberOfArguments { expected: 1, received: (tokens@.len() - 1) as usize },
            )
            &&& known && tokens@.len() == 2 && n <= 65535 ==> result is Ok
            &&& known && tokens@.len() == 2 && cmd != "accept"@ && cmd != "a"@ ==> result is Ok
            &&& tokens@.len() == 2 && (cmd == "accept"@ || cmd == "a"@) && n > 65535 ==> result
                == Err::<TcpCommand<String, Vec<u8>>, CommandError>(CommandError::InvalidNumber)
            &&& tokens@.len() == 2 && cmd == "up"@ ==> (result->Ok_0)@ == TcpCommand::<
                Seq<char>,
                Seq<u8>,
            >::Toggle { id: n as usize, state: State::UP }
            &&& tokens@.len() == 2 && cmd == "down"@ ==> (result->Ok_0)@ == TcpCommand::<
                Seq<char>,
                Seq<u8>,
            >::Toggle { id: n as usize, state: State::DOWN }
            &&& tokens@.len() == 2 && (cmd == "window"@ || cmd == "lw"@) ==> (result->Ok_0)@
                == TcpCommand::<Seq<char>, Seq<u8>>::Window { socket_id: n as usize }
            &&& tokens@.len() == 2 && (cmd == "close"@ || cmd == "cl"@) ==> (result->Ok_0)@
                == TcpCommand::<Seq<char>, Seq<u8>>::Close { socket_id: n as usize }
            &&& tokens@.len() == 2 && (cmd == "accept"@ || cmd == "a"@) && n <= 65535 ==> (
            result->Ok_0)@
                == TcpCommand::<Seq<char>, Seq<u8>>::Accept { port: n as u16 }
        }),
{
    lemma_name_tags();
    let words = words_view(tokens@);
    assert(words.len() == tokens@.len());
    assert(words[0] == tokens@[0]@);
    if tokens@.len() == 2 {
        assert(words[1] == tokens@[1]@);
        law_decimal_round_trip(n, usize::MAX as int);
        if n <= 65535 {
            law_decimal_round_trip(n, 65535);
        } else {
            law_large_numbers_are_refused(n, 65535);
        }
    }
}

/// The commands that take no arguments, and a word that is no command.
pub proof fn law_commands_without_arguments(
    tokens: &Vec<String>,
    addr: Option<Ipv4Addr>,
    result: Result<TcpCommand<String, Vec<u8>>, CommandError>,
)
    requires
        tokens@.len() > 0,
        call_ensures(parse_tcp_command, (tokens, addr), result),
    ensures
        ({
            let cmd = tokens@[0]@;
            &&& cmd == "interfaces"@ || cmd == "li"@ ==> result is Ok && result->Ok_0 is Interfaces
            &&& cmd == "routes"@ || cmd == "lr"@ ==> result is Ok && result->Ok_0 is Routes
            &&& cmd == "sockets"@ || cmd == "ls"@ ==> result is Ok && result->Ok_0 is Sockets
            &&& cmd == "quit"@ || cmd == "q"@ ==> result is Ok && result->Ok_0 is Quit
            &&& cmd == "help"@ || cmd == "h"@ ==> result is Ok && result->Ok_0 is Help
            &&& (result is Ok && result->Ok_0 is Unknown) ==> {
                &&& cmd != "up"@ && cmd != "down"@ && cmd != "interfaces"@ && cmd != "li"@
                &&& cmd != "routes"@ && cmd != "lr"@ && cmd != "sockets"@ && cmd != "ls"@
                &&& cmd != "window"@ && cmd != "lw"@ && cmd != "accept"@ && cmd != "a"@
                &&& cmd != "connect"@ && cmd != "c"@ && cmd != "send"@ && cmd != "s"@
                &&& cmd != "recv"@ && cmd != "r"@ && cmd != "shutdown"@ && cmd != "sd"@
                &&& cmd != "close"@ && cmd != "cl"@ && cmd != "send_file"@ && cmd != "sf"@
                &&& cmd != "recv_file"@ && cmd != "rf"@ && cmd != "quit"@ && cmd != "q"@
                &&& cmd != "help"@ && cmd != "h"@
            }
        }),
{
    lemma_name_tags();
    let words = words_view(tokens@);
    assert(words.len() == tokens@.len());
    assert(words[0] == tokens@[0]@);
    if let Ok(cmd) = result {
        assert(tcp_command(words, addr) == Ok::<TcpCommand<Seq<char>, Seq<u8>>, CommandError>(cmd@));
    }
}

/// Connecting takes an address and a port, with `reno` as one word more for congestion control, and
/// so does sending a file, after the file's name. Anything else in its place, and any other number
/// of words, is turned down.
pub proof fn law_commands_with_an_address(
    tokens: &Vec<String>,
    addr: Option<Ipv4Addr>,
    result: Result<TcpCommand<String, Vec<u8>>, CommandError>,
    port: int,
)
    requires
        tokens@.len() > 0,
        0 <= port,
        call_ensures(parse_tcp_command, (tokens, addr), result),
    ensures
        ({
            let cmd = tokens@[0]@;
            let n = tokens@.len();
            let connects = cmd == "connect"@ || cmd == "c"@;
            let sends = cmd == "send_file"@ || cmd == "sf"@;
            let reno = tokens@[n - 1]@ == "reno"@;
            let fits = port <= 65535;
            &&& connects && addr is Some && n == 3 && tokens@[2]@ == decimal_text(port) && fits ==> {
                &&& result is Ok
                &&& (result->Ok_0)@ == TcpCommand::<Seq<char>, Seq<u8>>::Connect {
                    ip: addr->0,
                    port: port as u16,
                    reno: false,
                }
            }
            &&& connects && addr is Some && n == 4 && reno && tokens@[2]@ == decimal_text(port) && fits ==> {
                &&& result is Ok
                &&& (result->Ok_0)@ == TcpCommand::<Seq<char>, Seq<u8>>::Connect {
                    ip: addr->0,
                    port: port as u16,
                    reno: true,
                }
            }
            &&& connects && (n < 3 || n > 4 || (n == 4 && !reno)) ==> result == Err::<
                TcpCommand<String, Vec<u8>>,
                CommandError,
            >(
                CommandError::WrongNumberOfArguments { expected: 2, received: (n - 1) as usize },
            )
            &&& connects && addr is Some && n == 3 && tokens@[2]@ == decimal_text(port) && !fits
                ==> result == Err::<TcpCommand<String, Vec<u8>>, CommandError>(
                CommandError::InvalidNumber,
            )
            &&& sends && addr is Some && n == 4 && tokens@[3]@ == decimal_text(port) && !fits
                ==> result == Err::<TcpCommand<String, Vec<u8>>, CommandError>(
                CommandError::InvalidNumber,
            )
            &&& connects && addr is None && (n == 3 || (n == 4 && reno)) ==> result == Err::<TcpCommand<String, Vec<u8>>, CommandError>(CommandError::InvalidAddress)
            &&& sends && addr is Some && n == 4 && tokens@[3]@ == decimal_text(port) && fits ==> {
                &&& result is Ok
                &&& (result->Ok_0)@ == TcpCommand::<Seq<char>, Seq<u8>>::SendFile {
                    filename: tokens@[1]@,
                    ip: addr->0,
                    port: port as u16,
                    reno: false,
                }
            }
            &&& sends && addr is Some && n == 5 && reno && tokens@[3]@ == decimal_text(port) && fits ==> {
                &&& result is Ok
                &&& (result->Ok_0)@ == TcpCommand::<Seq<char>, Seq<u8>>::SendFile {
                    filename: tokens@[1]@,
                    ip: addr->0,
                    port: port as u16,
                    reno: true,
                }
            }
            &&& sends && (n < 4 || n > 5 || (n == 5 && !reno)) ==> result == Err::<
                TcpCommand<String, Vec<u8>>,
                CommandError,
            >(
                CommandError::WrongNumberOfArguments { expected: 3, received: (n - 1) as usize },
            )
            &&& sends && addr is None && (n == 4 || (n == 5 && reno)) ==> result == Err::<TcpCommand<String, Vec<u8>>, CommandError>(CommandError::InvalidAddress)
        }),
{
    lemma_name_tags();
    let words = words_view(tokens@);
    assert(words.len() == tokens@.len());
    assert forall|i: int| 0 <= i < words.len() implies words[i] == (#[trigger] tokens@[i])@ by {}
    assert(words[0] == tokens@[0]@);
    if port <= 65535 {
        law_decimal_round_trip(port, 65535);
    } else {
        law_large_numbers_are_refused(port, 65535);
    }
}

/// Sending takes a socket and the text to send, whose bytes are sent as they are. Reading takes a
/// socket, how much to read, and maybe whether to wait for all of it, which is not done otherwise.
/// Receiving a file takes its name and a port, and shutting down a socket maybe a side, which is the
/// write side otherwise.
pub proof fn law_commands_on_sockets(
    tokens: &Vec<String>,
    addr: Option<Ipv4Addr>,
    result: Result<TcpCommand<String, Vec<u8>>, CommandError>,
    id: int,
    num: int,
)
    requires
        tokens@.len() > 0,
        0 <= id <= usize::MAX,
        0 <= num <= usize::MAX,
        call_ensures(parse_tcp_command, (tokens, addr), result),
    ensures
        ({
            let cmd = tokens@[0]@;
            let n = tokens@.len();
            let first = tokens@[1]@ == decimal_text(id);
            let second = tokens@[2]@ == decimal_text(num);
            &&& (cmd == "send"@ || cmd == "s"@) && n == 3 && first ==> {
                &&& result is Ok
                &&& (result->Ok_0)@ == TcpCommand::<Seq<char>, Seq<u8>>::Send {
                    socket_id: id as usize,
                    data: vstd::utf8::encode_utf8(tokens@[2]@),
                }
            }
            &&& (cmd == "recv"@ || cmd == "r"@) && n == 3 && first && second ==> {
                &&& result is Ok
                &&& (result->Ok_0)@ == TcpCommand::<Seq<char>, Seq<u8>>::Recv {
                    socket_id: id as usize,
                    num_bytes: num as usize,
                    block: false,
                }
            }
            &&& (cmd == "recv"@ || cmd == "r"@) && n == 4 && first && second && (tokens@[3]@ == "y"@
                || tokens@[3]@ == "n"@) ==> {
                &&& result is Ok
                &&& (result->Ok_0)@ == TcpCommand::<Seq<char>, Seq<u8>>::Recv {
                    socket_id: id as usize,
                    num_bytes: num as usize,
                    block: tokens@[3]@ == "y"@,
                }
            }
            &&& (cmd == "recv"@ || cmd == "r"@) && n == 4 && tokens@[3]@ != "y"@ && tokens@[3]@
                != "n"@ ==> result == Err::<TcpCommand<String, Vec<u8>>, CommandError>(CommandError::InvalidBlock)
            &&& (cmd == "recv_file"@ || cmd == "rf"@) && n == 3 && second && num > 65535 ==> result
                == Err::<TcpCommand<String, Vec<u8>>, CommandError>(CommandError::InvalidNumber)
            &&& (cmd == "recv_file"@ || cmd == "rf"@) && n == 3 && second && num <= 65535 ==> {
                &&& result is Ok
                &&& (result->Ok_0)@ == TcpCommand::<Seq<char>, Seq<u8>>::RecvFile {
                    filename: tokens@[1]@,
                    port: num as u16,
                }
            }
            &&& (cmd == "shutdown"@ || cmd == "sd"@) && n == 2 && first ==> {
                &&& result is Ok
                &&& (result->Ok_0)@ == TcpCommand::<Seq<char>, Seq<u8>>::Shutdown {
                    socket_id: id as usize,
                    side: SocketSide::Write,
                }
            }
            &&& (cmd == "shutdown"@ || cmd == "sd"@) && n == 3 && first ==> {
                let side = tokens@[2]@;
                &&& side == "w"@ || side == "write"@ ==> result is Ok && (result->Ok_0)@
                    == TcpCommand::<Seq<char>, Seq<u8>>::Shutdown {
                    socket_id: id as usize,
                    side: SocketSide::Write,
                }
                &&& side == "r"@ || side == "read"@ ==> result is Ok && (result->Ok_0)@
                    == TcpCommand::<Seq<char>, Seq<u8>>::Shutdown {
                    socket_id: id as usize,
                    side: SocketSide::Read,
                }
                &&& side == "both"@ ==> result is Ok && (result->Ok_0)@ == TcpCommand::<
                    Seq<char>,
                    Seq<u8>,
                >::Shutdown { socket_id: id as usize, side: SocketSide::Both }
            }
            &&& (cmd == "send"@ || cmd == "s"@ || cmd == "recv_file"@ || cmd == "rf"@) && n != 3
                ==> result == Err::<
                TcpCommand<String, Vec<u8>>,
                CommandError,
            >(
                CommandError::WrongNumberOfArguments { expected: 2, received: (n - 1) as usize },
            )
        }),
{
    lemma_name_tags();
    let words = words_view(tokens@);
    assert(words.len() == tokens@.len());
    assert forall|i: int| 0 <= i < words.len() implies words[i] == (#[trigger] tokens@[i])@ by {}
    assert(words[0] == tokens@[0]@);
    law_decimal_round_trip(id, usize::MAX as int);
    law_decimal_round_trip(num, usize::MAX as int);
    if num <= 65535 {
        law_decimal_round_trip(num, 65535);
    } else {
        law_large_numbers_are_refused(num, 65535);
    }
}

/// The commands of a node that speaks IP only: sending takes an address, the number of a protocol
/// and the text to send; the others are as at any node.
pub proof fn law_node_commands(
    tokens: &Vec<String>,
    addr: Option<Ipv4Addr>,
    result: Result<NodeCommand<Vec<u8>>, CommandError>,
    num: int,
)
    requires
        tokens@.len() > 0,
        0 <= num <= 255,
        call_ensures(parse_node_command, (tokens, addr), result),
    ensures
        ({
            let cmd = tokens@[0]@;
            let n = tokens@.len();
            let protocol = if num == 0 {
                Protocol::Test
            } else if num == 6 {
                Protocol::Tcp
            } else {
                Protocol::RIP
            };
            let known = num == 0 || num == 6 || num == 200;
            &&& cmd == "send"@ && n != 4 ==> result == Err::<
                NodeCommand<Vec<u8>>,
                CommandError,
            >(
                CommandError::WrongNumberOfArguments { expected: 3, received: (n - 1) as usize },
            )
            &&& cmd == "send"@ && n == 4 && addr is None ==> result == Err::<NodeCommand<Vec<u8>>, CommandError>(CommandError::InvalidAddress)
            &&& cmd == "send"@ && n == 4 && addr is Some && tokens@[2]@ == decimal_text(num)
                && !known ==> result == Err::<NodeCommand<Vec<u8>>, CommandError>(CommandError::UnrecognizedProtocol(num as u8))
            &&& cmd == "send"@ && n == 4 && addr is Some && tokens@[2]@ == decimal_text(num)
                && known ==> {
                &&& result is Ok
                &&& (result->Ok_0)@ == NodeCommand::<Seq<u8>>::Send {
                    their_ip: addr->0,
                    protocol,
                    data: vstd::utf8::encode_utf8(tokens@[3]@),
                }
            }
            &&& (cmd == "up"@ || cmd == "down"@) && n == 2 && tokens@[1]@ == decimal_text(num) ==> {
                &&& result is Ok
                &&& (result->Ok_0)@ == NodeCommand::<Seq<u8>>::Toggle {
                    id: num as usize,
                    state: if cmd == "up"@ {
                        State::UP
                    } else {
                        State::DOWN
                    },
                }
            }
            &&& cmd == "interfaces"@ || cmd == "li"@ ==> result is Ok && result->Ok_0 is Interfaces
            &&& cmd == "routes"@ || cmd == "lr"@ ==> result is Ok && result->Ok_0 is Routes
            &&& cmd == "q"@ ==> result is Ok && result->Ok_0 is Quit
        }),
{
    lemma_name_tags();
    let words = words_view(tokens@);
    assert(words.len() == tokens@.len());
    assert forall|i: int| 0 <= i < words.len() implies words[i] == (#[trigger] tokens@[i])@ by {}
    assert(words[0] == tokens@[0]@);
    law_decimal_round_trip(num, usize::MAX as int);
    law_decimal_round_trip(num, 255);
}

/// Where a command names an address: first if it connects, and after the file's name if it sends a
/// file.
pub proof fn law_address_words(tokens: &Vec<String>, word: Option<&String>)
    requires
        call_ensures(address_word, (tokens,), word),
        tokens@.len() > 0,
    ensures
        ({
            let cmd = tokens@[0]@;
            let connects = cmd == "connect"@ || cmd == "c"@;
            let sends = cmd == "send_file"@ || cmd == "sf"@;
            &&& connects && tokens@.len() > 1 ==> word is Some && (word->0)@ == tokens@[1]@
            &&& sends && tokens@.len() > 2 ==> word is Some && (word->0)@ == tokens@[2]@
            &&& !connects && !sends ==> word is None
        }),
{
    lemma_name_tags();
    let words = words_view(tokens@);
    assert(words.len() == tokens@.len());
    assert forall|i: int| 0 <= i < words.len() implies words[i] == (#[trigger] tokens@[i])@ by {}
    assert(words[0] == tokens@[0]@);
}

} // verus!
