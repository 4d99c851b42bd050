use ip_tcp::ip::protocol::Protocol;
use ip_tcp::link::interface::State;
use ip_tcp::misc::command::{
    address_word, check_len, parse_node_command, parse_tcp_command, tokenize, CommandError,
    NodeCommand, TcpCommand,
};
use ip_tcp::misc::lnx_config::{parse_interface_line, parse_local_line, ImproperlyFormatted};
use ip_tcp::misc::text::{addr_string, decimal_string, parse_decimal, split_spaces};
use ip_tcp::tcp::socket::SocketSide;

const IP: Option<u32> = Some(0x0a00_0001);

fn tcp(line: &str) -> Result<TcpCommand<String, Vec<u8>>, CommandError> {
    parse_tcp_command(&tokenize(line)?, IP)
}

fn node(line: &str) -> Result<NodeCommand<Vec<u8>>, CommandError> {
    parse_node_command(&tokenize(line)?, IP)
}

fn count(expected: usize, received: usize) -> Option<CommandError> {
    Some(CommandError::WrongNumberOfArguments { expected, received })
}

#[test]
fn lines_are_split_like_a_shell_does() {
    assert_eq!(tokenize("send 0 'two words'").unwrap(), vec!["send", "0", "two words"]);
    assert_eq!(tokenize(r#"s 1 "a \"b\"" c\ d"#).unwrap(), vec!["s", "1", "a \"b\"", "c d"]);
    assert!(tokenize("").unwrap().is_empty());
    assert_eq!(tokenize("send 'x"), Err(CommandError::MismatchedQuotes));
}

#[test]
fn node_commands() {
    assert!(matches!(node("li"), Ok(NodeCommand::Interfaces)));
    assert!(matches!(node("interfaces"), Ok(NodeCommand::Interfaces)));
    assert!(matches!(node("lr x y"), Ok(NodeCommand::Routes)));
    assert!(matches!(node("routes"), Ok(NodeCommand::Routes)));
    assert!(matches!(node("q"), Ok(NodeCommand::Quit)));
    assert!(matches!(node("quit"), Ok(NodeCommand::Unknown)));
    assert!(matches!(node("up 3"), Ok(NodeCommand::Toggle { id: 3, state: State::UP })));
    assert!(matches!(node("down 0"), Ok(NodeCommand::Toggle { id: 0, state: State::DOWN })));
    assert_eq!(node("up").err(), count(1, 0));
    assert_eq!(node("down x").err(), Some(CommandError::InvalidNumber));
    match node("send 10.0.0.1 0 hello") {
        Ok(NodeCommand::Send { their_ip, protocol, data }) => {
            assert_eq!(their_ip, 0x0a00_0001);
            assert_eq!(protocol, Protocol::Test);
            assert_eq!(data, b"hello");
        }
        _ => panic!("not a send"),
    }
    assert_eq!(node("send 10.0.0.1 0").err(), count(3, 2));
    assert_eq!(node("send 10.0.0.1 256 x").err(), Some(CommandError::InvalidNumber));
    assert_eq!(node("send 10.0.0.1 7 x").err(), Some(CommandError::UnrecognizedProtocol(7)));
    let tokens = tokenize("send nowhere 0 x").unwrap();
    assert_eq!(parse_node_command(&tokens, None).err(), Some(CommandError::InvalidAddress));
}

#[test]
fn tcp_commands_without_arguments() {
    assert!(matches!(tcp("interfaces"), Ok(TcpCommand::Interfaces)));
    assert!(matches!(tcp("li"), Ok(TcpCommand::Interfaces)));
    assert!(matches!(tcp("routes"), Ok(TcpCommand::Routes)));
    assert!(matches!(tcp("lr"), Ok(TcpCommand::Routes)));
    assert!(matches!(tcp("sockets"), Ok(TcpCommand::Sockets)));
    assert!(matches!(tcp("ls"), Ok(TcpCommand::Sockets)));
    assert!(matches!(tcp("quit"), Ok(TcpCommand::Quit)));
    assert!(matches!(tcp("q"), Ok(TcpCommand::Quit)));
    assert!(matches!(tcp("help"), Ok(TcpCommand::Help)));
    assert!(matches!(tcp("h"), Ok(TcpCommand::Help)));
    assert!(matches!(tcp("nonsense"), Ok(TcpCommand::Unknown)));
}

#[test]
fn tcp_commands_with_a_number() {
    assert!(matches!(tcp("up 1"), Ok(TcpCommand::Toggle { id: 1, state: State::UP })));
    assert!(matches!(tcp("down 2"), Ok(TcpCommand::Toggle { id: 2, state: State::DOWN })));
    assert!(matches!(tcp("window 4"), Ok(TcpCommand::Window { socket_id: 4 })));
    assert!(matches!(tcp("lw 4"), Ok(TcpCommand::Window { socket_id: 4 })));
    assert!(matches!(tcp("accept 8000"), Ok(TcpCommand::Accept { port: 8000 })));
    assert!(matches!(tcp("a +80"), Ok(TcpCommand::Accept { port: 80 })));
    assert_eq!(tcp("a 65536").err(), Some(CommandError::InvalidNumber));
    assert!(matches!(tcp("close 0"), Ok(TcpCommand::Close { socket_id: 0 })));
    assert!(matches!(tcp("cl 0"), Ok(TcpCommand::Close { socket_id: 0 })));
    assert_eq!(tcp("cl").err(), count(1, 0));
    assert_eq!(tcp("cl 1 2").err(), count(1, 2));
    assert_eq!(tcp("cl -1").err(), Some(CommandError::InvalidNumber));
}

#[test]
fn connections_may_ask_for_congestion_control() {
    match tcp("connect 10.0.0.1 80") {
        Ok(TcpCommand::Connect { ip, port, reno }) => {
            assert_eq!((ip, port, reno), (0x0a00_0001, 80, false))
        }
        _ => panic!("not a connect"),
    }
    assert!(matches!(tcp("c 10.0.0.1 80 reno"), Ok(TcpCommand::Connect { reno: true, .. })));
    assert_eq!(tcp("c 10.0.0.1 80 tahoe").err(), count(2, 3));
    assert_eq!(tcp("c 10.0.0.1").err(), count(2, 1));
    assert_eq!(tcp("c 10.0.0.1 x").err(), Some(CommandError::InvalidNumber));
    let tokens = tokenize("c nowhere x").unwrap();
    assert_eq!(parse_tcp_command(&tokens, None).err(), Some(CommandError::InvalidAddress));
    match tcp("send_file f.txt 10.0.0.1 80 reno") {
        Ok(TcpCommand::SendFile { filename, ip, port, reno }) => {
            assert_eq!(filename, "f.txt");
            assert_eq!((ip, port, reno), (0x0a00_0001, 80, true))
        }
        _ => panic!("not a send_file"),
    }
    assert!(matches!(tcp("sf f 10.0.0.1 80"), Ok(TcpCommand::SendFile { reno: false, .. })));
    assert_eq!(tcp("sf f 10.0.0.1").err(), count(3, 2));
    assert_eq!(tcp("sf f 10.0.0.1 80 x").err(), count(3, 4));
}

#[test]
fn socket_commands() {
    match tcp("send 3 'a b'") {
        Ok(TcpCommand::Send { socket_id, data }) => {
            assert_eq!(socket_id, 3);
            assert_eq!(data, b"a b");
        }
        _ => panic!("not a send"),
    }
    assert_eq!(tcp("s 3").err(), count(2, 1));
    assert_eq!(tcp("s x y").err(), Some(CommandError::InvalidNumber));
    assert!(matches!(
        tcp("recv 1 20"),
        Ok(TcpCommand::Recv { socket_id: 1, num_bytes: 20, block: false })
    ));
    assert!(matches!(tcp("r 1 20 y"), Ok(TcpCommand::Recv { block: true, .. })));
    assert!(matches!(tcp("r 1 20 n"), Ok(TcpCommand::Recv { block: false, .. })));
    assert_eq!(tcp("r 1 20 maybe").err(), Some(CommandError::InvalidBlock));
    assert_eq!(tcp("r 1").err(), count(3, 1));
    assert_eq!(tcp("r 1 x").err(), Some(CommandError::InvalidNumber));
    assert!(matches!(
        tcp("shutdown 2"),
        Ok(TcpCommand::Shutdown { socket_id: 2, side: SocketSide::Write })
    ));
    assert!(matches!(tcp("sd 2 both"), Ok(TcpCommand::Shutdown { side: SocketSide::Both, .. })));
    assert_eq!(tcp("sd 2 up").err(), Some(CommandError::UnknownSide));
    assert_eq!(tcp("sd").err(), count(2, 0));
    match tcp("rf out.bin 99") {
        Ok(TcpCommand::RecvFile { filename, port }) => {
            assert_eq!(filename, "out.bin");
            assert_eq!(port, 99);
        }
        _ => panic!("not a recv_file"),
    }
    assert_eq!(tcp("recv_file f").err(), count(2, 1));
}

#[test]
fn address_words() {
    let word = |line: &str| address_word(&tokenize(line).unwrap()).cloned();
    assert_eq!(word("connect 1.2.3.4 5"), Some("1.2.3.4".to_string()));
    assert_eq!(word("sf file 1.2.3.4 5"), Some("1.2.3.4".to_string()));
    assert_eq!(word("sf file"), None);
    assert_eq!(word("li"), None);
    assert_eq!(word(""), None);
    assert_eq!(check_len(&tokenize("a b").unwrap(), 1), Ok(()));
}

#[test]
fn decimal_numbers() {
    assert_eq!(parse_decimal("0", 10), Some(0));
    assert_eq!(parse_decimal("+007", 10), Some(7));
    assert_eq!(parse_decimal("10", 10), Some(10));
    assert_eq!(parse_decimal("11", 10), None);
    assert_eq!(parse_decimal("", 10), None);
    assert_eq!(parse_decimal("+", 10), None);
    assert_eq!(parse_decimal("++1", 10), None);
    assert_eq!(parse_decimal("1a", 100), None);
    assert_eq!(parse_decimal("18446744073709551615", u64::MAX), Some(u64::MAX));
    assert_eq!(parse_decimal("18446744073709551616", u64::MAX), None);
    assert_eq!(parse_decimal("99999999999999999999999x", u64::MAX), None);
    for n in [0, 9, 10, 65535, u64::MAX] {
        assert_eq!(parse_decimal(&decimal_string(n), u64::MAX), Some(n));
    }
    assert_eq!(decimal_string(12034), "12034");
    assert_eq!(addr_string(0x7f00_0a01), "127.0.10.1");
}

#[test]
fn configuration_lines() {
    assert_eq!(parse_local_line("localhost 5000\n").unwrap(), "localhost:5000");
    // the last character always goes
    assert_eq!(parse_local_line("localhost 5000").unwrap(), "localhost:500");
    assert_eq!(parse_local_line("localhost\n"), Err(ImproperlyFormatted(1)));
    assert_eq!(parse_local_line(""), Err(ImproperlyFormatted(1)));
    assert_eq!(parse_local_line("a  b\n"), Err(ImproperlyFormatted(1)));
    let line = parse_interface_line(2, "localhost 5001 10.0.0.1 10.0.0.2").unwrap();
    assert_eq!(line.outgoing_link, "localhost:5001");
    assert_eq!(line.our_ip, "10.0.0.1");
    assert_eq!(line.their_ip, "10.0.0.2");
    assert_eq!(parse_interface_line(2, "x y z").err(), Some(ImproperlyFormatted(2)));
    assert_eq!(split_spaces("a b  c"), vec!["a", "b", "", "c"]);
    assert_eq!(split_spaces(""), vec![""]);
}
