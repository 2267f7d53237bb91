//! Commands from the user interface and events between tasks.

use vstd::prelude::*;

use crate::addr::NeighborAddr;
use crate::common_header::full_dec;
use crate::json::{ascii_seq, parse_u64_max, sp_uint};
use crate::text::{bytes_to_string, vec_take_range};
use crate::protocol::Packet;
use crate::shared::RouteRecord;

verus! {

/// The closed command set of the user interface.
#[derive(Clone, Debug)]
pub enum Commands {
    Connect(NeighborAddr),
    Contacts,
    Message(NeighborAddr, String),
    Quit,
    Help,
    Unknown(String),
    SetOwnNick(String),
    Broadcast(String),
}

/// What tasks hand each other and the user interface.
#[derive(Clone, Debug)]
pub enum ChannelEvent {
    Join(NeighborAddr),
    Leave(NeighborAddr),
    Message(String, NeighborAddr),
    Routing(u8),
    Forward(Packet),
    Command(Commands),
    Contacts(Vec<RouteRecord>),
    MessageToTUI(String, String, NeighborAddr),
    LogToTerminal(String),
}

/// The first position at or after `i` holding a space, or the end.
pub open spec fn tok_end(b: Seq<u8>, i: int) -> int
    decreases b.len() - i,
{
    if 0 <= i < b.len() && b[i] != 0x20 {
        tok_end(b, i + 1)
    } else {
        i
    }
}

/// Steps to the end of the token starting at `i`.
fn find_token_end(v: &Vec<u8>, i: usize) -> (r: usize)
    requires
        i <= v@.len(),
    ensures
        i <= r <= v@.len(),
        r as int == tok_end(v@, i as int),
{
    let mut cur: usize = i;
    while cur < v.len() && v[cur] != 0x20
        invariant
            i <= cur <= v@.len(),
            tok_end(v@, i as int) == tok_end(v@, cur as int),
        decreases v@.len() - cur,
    {
        cur = cur + 1;
    }
    cur
}

/// `Unknown` carrying the wrong-argument-count text.
pub open spec fn is_unknown_args(r: Commands) -> bool {
    match r {
        Commands::Unknown(u) => u@ == "Invalid number of arguments"@,
        _ => false,
    }
}

/// `Unknown` carrying the bad-address text.
pub open spec fn is_unknown_addr(r: Commands) -> bool {
    match r {
        Commands::Unknown(u) => u@ == "Invalid IP or Port"@,
        _ => false,
    }
}

/// An address from its IP text and port text; refused when the port
/// is not a clean decimal. The IP text itself is carried as written:
/// the transport checks it when a connection is opened.
pub fn string_to_socketaddr(ip: &str, port: &str) -> (r: Option<NeighborAddr>)
    ensures
        match full_dec(vstd::utf8::encode_utf8(port@), 0xffff) {
            Some(n) => (match r {
                Some(a) => a@.ip == ip@ && a@.port as nat == n,
                None => false,
            }),
            None => r is None,
        },
{
    let pbytes = port.as_bytes_vec();
    match parse_u64_max(&pbytes, 0, 0xffff) {
        Some(p) => {
            if p.1 == pbytes.len() {
                Some(NeighborAddr::new(ip.to_owned(), p.0 as u16))
            } else {
                None
            }
        },
        None => None,
    }
}

/// The token's bytes as a `String`, or nothing when they are not
/// UTF-8.
fn token_string(v: &Vec<u8>, a: usize, e: usize) -> (r: Option<String>)
    requires
        a <= e <= v@.len(),
    ensures
        match r {
            Some(s) => vstd::utf8::valid_utf8(v@.subrange(a as int, e as int)) && s@
                == vstd::utf8::decode_utf8(v@.subrange(a as int, e as int)),
            None => !vstd::utf8::valid_utf8(v@.subrange(a as int, e as int)),
        },
{
    broadcast use vstd::utf8::encode_utf8_valid_utf8, vstd::utf8::encode_utf8_decode_utf8;

    let raw = vec_take_range(v, a, e);
    let ghost rawv = raw@;
    match bytes_to_string(raw) {
        Some(s) => {
            proof {
                assert(vstd::utf8::encode_utf8(s@) == rawv);
                assert(vstd::utf8::decode_utf8(rawv) == s@);
            }
            Some(s)
        },
        None => None,
    }
}



/// The first word of a command line, as bytes.
pub open spec fn cmd_token(s: Seq<char>) -> Seq<u8> {
    let b = vstd::utf8::encode_utf8(s);
    b.subrange(0, tok_end(b, 0))
}

/// The spec of reading a `setnick` command's argument.
pub open spec fn setnick_spec(b: Seq<u8>, p1: int, r: Commands) -> bool {
    &&& p1 >= b.len() ==> is_unknown_args(r)
    &&& p1 < b.len() ==> {
        let w1 = b.subrange(p1 + 1, tok_end(b, p1 + 1));
        &&& vstd::utf8::valid_utf8(w1) ==> (match r {
            Commands::SetOwnNick(s) => s@ == vstd::utf8::decode_utf8(w1),
            _ => false,
        })
        &&& !vstd::utf8::valid_utf8(w1) ==> is_unknown_args(r)
    }
}

/// The spec of reading a `msg` command's arguments from position
/// `p1`, the end of the first word.
pub open spec fn msg_spec(b: Seq<u8>, p1: int, r: Commands) -> bool {
    let e1 = tok_end(b, p1 + 1);
    let e2 = tok_end(b, e1 + 1);
    &&& !(p1 < b.len() && e1 < b.len() && e2 < b.len()) ==> is_unknown_args(r)
    &&& p1 < b.len() && e1 < b.len() && e2 < b.len() ==> {
        let ipb = b.subrange(p1 + 1, e1);
        let portb = b.subrange(e1 + 1, e2);
        let msgb = b.subrange(e2 + 1, b.len() as int);
        match full_dec(portb, 0xffff) {
            None => is_unknown_addr(r),
            Some(n) => {
                &&& vstd::utf8::valid_utf8(ipb) && vstd::utf8::valid_utf8(msgb) ==> (match r {
                    Commands::Message(a, m) => a@.ip == vstd::utf8::decode_utf8(ipb) && a@.port
                        as nat == n && m@ == vstd::utf8::decode_utf8(msgb),
                    _ => false,
                })
                &&& !(vstd::utf8::valid_utf8(ipb) && vstd::utf8::valid_utf8(msgb))
                    ==> is_unknown_addr(r)
            },
        }
    }
}

/// The spec of reading a `connect` command's arguments.
pub open spec fn connect_spec(b: Seq<u8>, p1: int, r: Commands) -> bool {
    let e1 = tok_end(b, p1 + 1);
    let e2 = tok_end(b, e1 + 1);
    &&& !(p1 < b.len() && e1 < b.len()) ==> is_unknown_args(r)
    &&& p1 < b.len() && e1 < b.len() ==> {
        let ipb = b.subrange(p1 + 1, e1);
        let portb = b.subrange(e1 + 1, e2);
        match full_dec(portb, 0xffff) {
            None => is_unknown_addr(r),
            Some(n) => {
                &&& vstd::utf8::valid_utf8(ipb) ==> (match r {
                    Commands::Connect(a) => a@.ip == vstd::utf8::decode_utf8(ipb) && a@.port
                        as nat == n,
                    _ => false,
                })
                &&& !vstd::utf8::valid_utf8(ipb) ==> is_unknown_addr(r)
            },
        }
    }
}

/// Reads the arguments of a `msg` command.
fn msg_command(b: &Vec<u8>, p1: usize) -> (r: Commands)
    requires
        p1 <= b@.len(),
    ensures
        msg_spec(b@, p1 as int, r),
{
    if p1 >= b.len() {
        return Commands::Unknown("Invalid number of arguments".to_owned());
    }
    let e1 = find_token_end(b, p1 + 1);
    if e1 >= b.len() {
        return Commands::Unknown("Invalid number of arguments".to_owned());
    }
    let e2 = find_token_end(b, e1 + 1);
    if e2 >= b.len() {
        return Commands::Unknown("Invalid number of arguments".to_owned());
    }
    let portb = vec_take_range(b, e1 + 1, e2);
    let port = match parse_u64_max(&portb, 0, 0xffff) {
        Some(p) => {
            if p.1 == portb.len() {
                p.0 as u16
            } else {
                return Commands::Unknown("Invalid IP or Port".to_owned());
            }
        },
        None => {
            return Commands::Unknown("Invalid IP or Port".to_owned());
        },
    };
    let ip = match token_string(b, p1 + 1, e1) {
        Some(s) => s,
        None => {
            return Commands::Unknown("Invalid IP or Port".to_owned());
        },
    };
    let msg = match token_string(b, e2 + 1, b.len()) {
        Some(s) => s,
        None => {
            return Commands::Unknown("Invalid IP or Port".to_owned());
        },
    };
    Commands::Message(NeighborAddr::new(ip, port), msg)
}

/// Reads the arguments of a `connect` command.
fn connect_command(b: &Vec<u8>, p1: usize) -> (r: Commands)
    requires
        p1 <= b@.len(),
    ensures
        connect_spec(b@, p1 as int, r),
{
    if p1 >= b.len() {
        return Commands::Unknown("Invalid number of arguments".to_owned());
    }
    let e1 = find_token_end(b, p1 + 1);
    if e1 >= b.len() {
        return Commands::Unknown("Invalid number of arguments".to_owned());
    }
    let e2 = find_token_end(b, e1 + 1);
    let portb = vec_take_range(b, e1 + 1, e2);
    let port = match parse_u64_max(&portb, 0, 0xffff) {
        Some(p) => {
            if p.1 == portb.len() {
                p.0 as u16
            } else {
                return Commands::Unknown("Invalid IP or Port".to_owned());
            }
        },
        None => {
            return Commands::Unknown("Invalid IP or Port".to_owned());
        },
    };
    let ip = match token_string(b, p1 + 1, e1) {
        Some(s) => s,
        None => {
            return Commands::Unknown("Invalid IP or Port".to_owned());
        },
    };
    Commands::Connect(NeighborAddr::new(ip, port))
}

/// Reads one console line into a command, as the user interface
/// does: the first word chooses the command, the following words are
/// its arguments, and anything after the third word of `msg` is the
/// message itself.
#[verifier::rlimit(100)]
#[verifier::spinoff_prover]
pub fn command_to_event(cmd: &str) -> (r: Commands)
    ensures
        cmd_token(cmd@) == ascii_seq("quit"@) ==> r is Quit,
        cmd_token(cmd@) == ascii_seq("help"@) ==> r is Help,
        cmd_token(cmd@) == ascii_seq("contacts"@) ==> r is Contacts,
        cmd_token(cmd@) == ascii_seq("setnick"@) ==> setnick_spec(
            vstd::utf8::encode_utf8(cmd@),
            tok_end(vstd::utf8::encode_utf8(cmd@), 0),
            r,
        ),
        cmd_token(cmd@) == ascii_seq("msg"@) ==> msg_spec(
            vstd::utf8::encode_utf8(cmd@),
            tok_end(vstd::utf8::encode_utf8(cmd@), 0),
            r,
        ),
        cmd_token(cmd@) == ascii_seq("connect"@) ==> connect_spec(
            vstd::utf8::encode_utf8(cmd@),
            tok_end(vstd::utf8::encode_utf8(cmd@), 0),
            r,
        ),
        !(cmd_token(cmd@) == ascii_seq("quit"@) || cmd_token(cmd@) == ascii_seq("help"@)
            || cmd_token(cmd@) == ascii_seq("contacts"@) || cmd_token(cmd@) == ascii_seq(
            "setnick"@,
        ) || cmd_token(cmd@) == ascii_seq("msg"@) || cmd_token(cmd@) == ascii_seq("connect"@))
            ==> (match r {
            Commands::Unknown(u) => u@ == cmd@,
            _ => false,
        }),
{
    proof {
        reveal_strlit("quit");
        reveal_strlit("help");
        reveal_strlit("contacts");
        reveal_strlit("setnick");
        reveal_strlit("msg");
        reveal_strlit("connect");
        assert(ascii_seq("quit"@)[0] == 'q' as u8);
        assert(ascii_seq("help"@)[0] == 'h' as u8);
        assert(ascii_seq("quit"@) != ascii_seq("help"@));
        assert(ascii_seq("setnick"@)[0] == 's' as u8);
        assert(ascii_seq("connect"@)[0] == 'c' as u8);
        assert(ascii_seq("setnick"@) != ascii_seq("connect"@));
        assert(vstd::utf8::is_ascii_chars("quit"@));
        assert(vstd::utf8::is_ascii_chars("help"@));
        assert(vstd::utf8::is_ascii_chars("contacts"@));
        assert(vstd::utf8::is_ascii_chars("setnick"@));
        assert(vstd::utf8::is_ascii_chars("msg"@));
        assert(vstd::utf8::is_ascii_chars("connect"@));
    }
    let b = cmd.as_bytes_vec();
    let p1 = find_token_end(&b, 0);
    let w0 = vec_take_range(&b, 0, p1);
    if crate::json::bytes_eq_str(&w0, "quit") {
        proof {
            assert(cmd_token(cmd@) == w0@);
            assert(cmd_token(cmd@) != ascii_seq("msg"@));
            assert(cmd_token(cmd@) != ascii_seq("connect"@));
        }
        Commands::Quit
    } else if crate::json::bytes_eq_str(&w0, "help") {
        proof {
            assert(cmd_token(cmd@) == w0@);
            assert(cmd_token(cmd@) != ascii_seq("msg"@));
            assert(cmd_token(cmd@) != ascii_seq("connect"@));
        }
        Commands::Help
    } else if crate::json::bytes_eq_str(&w0, "contacts") {
        proof {
            assert(cmd_token(cmd@) == w0@);
            assert(cmd_token(cmd@) != ascii_seq("msg"@));
            assert(cmd_token(cmd@) != ascii_seq("connect"@));
        }
        Commands::Contacts
    } else if crate::json::bytes_eq_str(&w0, "setnick") {
        proof {
            assert(cmd_token(cmd@) == w0@);
            assert(cmd_token(cmd@) != ascii_seq("msg"@));
            assert(cmd_token(cmd@) != ascii_seq("connect"@));
        }
        if p1 >= b.len() {
            Commands::Unknown("Invalid number of arguments".to_owned())
        } else {
            let e1 = find_token_end(&b, p1 + 1);
            match token_string(&b, p1 + 1, e1) {
                Some(name) => Commands::SetOwnNick(name),
                None => Commands::Unknown("Invalid number of arguments".to_owned()),
            }
        }
    } else if crate::json::bytes_eq_str(&w0, "msg") {
        let r = msg_command(&b, p1);
        proof {
            assert(b@ == vstd::utf8::encode_utf8(cmd@));
            assert(p1 as int == tok_end(vstd::utf8::encode_utf8(cmd@), 0));
            assert(msg_spec(vstd::utf8::encode_utf8(cmd@), p1 as int, r));
        }
        r
    } else if crate::json::bytes_eq_str(&w0, "connect") {
        let r = connect_command(&b, p1);
        proof {
            assert(connect_spec(vstd::utf8::encode_utf8(cmd@), p1 as int, r));
        }
        r
    } else {
        Commands::Unknown(cmd.to_owned())
    }
}


} // verus!
