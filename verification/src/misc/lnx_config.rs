//! The lines of a node's configuration file: first the address of its own link, then one line for
//! each interface.

use vstd::prelude::*;
use vstd::string::{StrSliceExecFns, StringExecFns};

use super::text::{split_on_space, split_spaces, words_view};

verus! {

/// The error for a line that is improperly formatted, with its number. The interfaces' lines are
/// counted from zero.
#[derive(Debug, Clone, Copy, PartialEq, Eq, Structural)]
pub struct ImproperlyFormatted(pub usize);

/// What the line of an interface says.
#[derive(Debug)]
pub struct InterfaceLine {
    /// Host and port of the far end
    pub outgoing_link: String,
    pub our_ip: String,
    pub their_ip: String,
}

/// A host and a port as one word.
pub open spec fn host_and_port(host: Seq<char>, port: Seq<char>) -> Seq<char> {
    host + ":"@ + port
}

fn join_host_and_port(host: &String, port: &String) -> (link: String)
    ensures
        link@ == host_and_port(host@, port@),
{
    let mut link = host.clone();
    link.append(":");
    link.append(port.as_str());
    link
}

/// Reads the first line, of which the last character ends the line: the host and the port that the
/// node listens on.
pub fn parse_local_line(line: &str) -> (result: Result<String, ImproperlyFormatted>)
    ensures
        ({
            let text = if line@.len() == 0 {
                line@
            } else {
                line@.drop_last()
            };
            let words = split_on_space(text);
            match result {
                Ok(link) => words.len() == 2 && link@ == host_and_port(words[0], words[1]),
                Err(e) => words.len() != 2 && e == ImproperlyFormatted(1),
            }
        }),
{
    let len: usize = line.unicode_len();
    let text = if len == 0 {
        line
    } else {
        line.substring_char(0, len - 1)
    };
    assert(line@.len() > 0 ==> text@ =~= line@.drop_last());
    let tokens = split_spaces(text);
    assert(words_view(tokens@).len() == tokens@.len());
    if tokens.len() != 2 {
        return Err(ImproperlyFormatted(1));
    }
    Ok(join_host_and_port(&tokens[0], &tokens[1]))
}

/// Reads the line of interface `i`.
pub fn parse_interface_line(i: usize, line: &str) -> (result: Result<
    InterfaceLine,
    ImproperlyFormatted,
>)
    ensures
        ({
            let words = split_on_space(line@);
            match result {
                Ok(interface) => {
                    &&& words.len() == 4
                    &&& interface.outgoing_link@ == host_and_port(words[0], words[1])
                    &&& interface.our_ip@ == words[2]
                    &&& interface.their_ip@ == words[3]
                },
                Err(e) => words.len() != 4 && e == ImproperlyFormatted(i),
            }
        }),
{
    let tokens = split_spaces(line);
    assert(words_view(tokens@).len() == tokens@.len());
    if tokens.len() != 4 {
        return Err(ImproperlyFormatted(i));
    }
    Ok(
        InterfaceLine {
            outgoing_link: join_host_and_port(&tokens[0], &tokens[1]),
            our_ip: tokens[2].clone(),
            their_ip: tokens[3].clone(),
        },
    )
}

/// The line of an interface has four words: host and port of the far end, our address and theirs.
/// Any other number of words is an error that names the line.
pub proof fn law_interface_lines(
    i: usize,
    line: &str,
    result: Result<InterfaceLine, ImproperlyFormatted>,
)
    requires
        call_ensures(parse_interface_line, (i, line), result),
    ensures
        ({
            let words = split_on_space(line@);
            &&& words.len() == 4 ==> {
                &&& result is Ok
                &&& (result->Ok_0).outgoing_link@ == words[0] + seq![':'] + words[1]
                &&& (result->Ok_0).our_ip@ == words[2]
                &&& (result->Ok_0).their_ip@ == words[3]
            }
            &&& words.len() != 4 ==> result == Err::<
                InterfaceLine,
                ImproperlyFormatted,
            >(ImproperlyFormatted(i))
        }),
{
    reveal_strlit(":");
    assert(":"@ =~= seq![':']);
}

/// The first line has two words before its end: host and port of the node's own link.
pub proof fn law_local_line(line: &str, result: Result<String, ImproperlyFormatted>)
    requires
        line@.len() > 0,
        call_ensures(parse_local_line, (line,), result),
    ensures
        ({
            let words = split_on_space(line@.take(line@.len() - 1));
            &&& words.len() == 2 ==> result is Ok && (result->Ok_0)@ == words[0] + seq![':']
                + words[1]
            &&& words.len() != 2 ==> result == Err::<String, ImproperlyFormatted>(
                ImproperlyFormatted(1),
            )
        }),
{
    reveal_strlit(":");
    assert(":"@ =~= seq![':']);
    assert(line@.take(line@.len() - 1) =~= line@.drop_last());
}

} // verus!
