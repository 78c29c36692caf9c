//! Client-local input commands: a typed line either asks to send a file,
//! asks to receive one, or is chat. The command forms are `:send "<path>"`
//! and `:receive "<name>"`; everything else goes to the wire unchanged.
use vstd::prelude::*;

use vstd::string::StrSliceExecFns;
use vstd::string::StringExecFns;

verus! {

/// `msg` is a well-formed send command: the seven-character prefix, a
/// closing quote, and a non-empty path between them.
pub open spec fn is_send_cmd(msg: Seq<char>) -> bool {
    msg.len() > 8 && msg.take(7) == ":send \""@ && msg.last() == '"'
}

/// The path carried by a send command.
pub open spec fn send_path(msg: Seq<char>) -> Seq<char> {
    msg.subrange(7, msg.len() - 1)
}

/// `msg` is a well-formed receive command: the ten-character prefix, a
/// closing quote, and a non-empty name between them.
pub open spec fn is_receive_cmd(msg: Seq<char>) -> bool {
    msg.len() > 10 && msg.take(10) == ":receive \""@ && msg.last() == '"'
}

/// The name carried by a receive command.
pub open spec fn receive_path(msg: Seq<char>) -> Seq<char> {
    msg.subrange(10, msg.len() - 1)
}

/// Compare a span of `msg` against a pattern, character by character.
fn matches_at(msg: &str, pat: &str, n: usize) -> (r: bool)
    requires
        n <= msg@.len(),
        n == pat@.len(),
    ensures
        r == (msg@.take(n as int) == pat@),
{
    let mut i: usize = 0;
    while i < n
        invariant
            i <= n,
            n <= msg@.len(),
            n == pat@.len(),
            forall|j: int| 0 <= j < i ==> msg@[j] == pat@[j],
        decreases n - i,
    {
        if msg.get_char(i) != pat.get_char(i) {
            proof {
                assert(msg@.take(n as int)[i as int] != pat@[i as int]);
            }
            return false;
        }
        i += 1;
    }
    proof {
        assert(msg@.take(n as int) =~= pat@);
    }
    true
}

/// Parse a `:send "<path>"` command; the path between the quotes, when the
/// line has exactly that shape.
pub fn parse_send_file(msg: &String) -> (r: Option<String>)
    ensures
        match r {
            Some(path) => is_send_cmd(msg@) && path@ == send_path(msg@),
            None => !is_send_cmd(msg@),
        },
{
    proof {
        reveal_strlit(":send \"");
    }
    let pat = ":send \"";
    let n = msg.as_str().unicode_len();
    if n <= 8 {
        return None;
    }
    if !matches_at(msg.as_str(), pat, 7) {
        return None;
    }
    if msg.as_str().get_char(n - 1) != '"' {
        return None;
    }
    let path = msg.as_str().substring_char(7, n - 1).to_owned();
    Some(path)
}

/// Parse a `:receive "<name>"` command; the name between the quotes, when
/// the line has exactly that shape.
pub fn parse_receive_file(msg: &String) -> (r: Option<String>)
    ensures
        match r {
            Some(name) => is_receive_cmd(msg@) && name@ == receive_path(msg@),
            None => !is_receive_cmd(msg@),
        },
{
    proof {
        reveal_strlit(":receive \"");
    }
    let pat = ":receive \"";
    let n = msg.as_str().unicode_len();
    if n <= 10 {
        return None;
    }
    if !matches_at(msg.as_str(), pat, 10) {
        return None;
    }
    if msg.as_str().get_char(n - 1) != '"' {
        return None;
    }
    let name = msg.as_str().substring_char(10, n - 1).to_owned();
    Some(name)
}

/// A quote-space pair, the delimiter between the two fields of an accept
/// command, starts at index `i` of `s`.
pub open spec fn has_delim_at(s: Seq<char>, i: int) -> bool {
    0 <= i && i + 2 <= s.len() && s[i] == '"' && s[i + 1] == ' '
}

/// Index of the first quote-space delimiter in `s`, or -1.
pub open spec fn first_delim(s: Seq<char>) -> int
    decreases s.len(),
{
    if s.len() < 2 {
        -1
    } else if s[0] == '"' && s[1] == ' ' {
        0
    } else {
        let r = first_delim(s.skip(1));
        if r < 0 {
            -1
        } else {
            r + 1
        }
    }
}

/// `first_delim` finds exactly the least index carrying a delimiter.
pub proof fn lemma_first_delim(s: Seq<char>)
    ensures
        first_delim(s) == -1 <==> forall|i: int| !has_delim_at(s, i),
        first_delim(s) >= 0 ==> has_delim_at(s, first_delim(s)),
        first_delim(s) >= 0 ==> forall|i: int| 0 <= i < first_delim(s) ==> !has_delim_at(s, i),
    decreases s.len(),
{
    if s.len() < 2 {
        assert(forall|i: int| !has_delim_at(s, i));
    } else if s[0] == '"' && s[1] == ' ' {
        assert(has_delim_at(s, 0));
    } else {
        lemma_first_delim(s.skip(1));
        assert forall|i: int| 1 <= i implies has_delim_at(s, i) == has_delim_at(
            s.skip(1),
            i - 1,
        ) by {
            if 1 <= i && i + 2 <= s.len() {
                assert(s.skip(1)[i - 1] == s[i]);
                assert(s.skip(1)[i] == s[i + 1]);
            }
        }
        assert(!has_delim_at(s, 0));
        let r = first_delim(s.skip(1));
        if r < 0 {
            assert forall|i: int| !has_delim_at(s, i) by {
                if i >= 1 {
                    assert(!has_delim_at(s.skip(1), i - 1));
                }
            }
        } else {
            assert(has_delim_at(s.skip(1), r));
            assert(has_delim_at(s, r + 1));
            assert forall|i: int| 0 <= i < r + 1 implies !has_delim_at(s, i) by {
                if i >= 1 {
                    assert(!has_delim_at(s.skip(1), i - 1));
                }
            }
        }
    }
}

/// Scan a string for the first quote-space delimiter.
fn find_delim(s: &str) -> (r: Option<usize>)
    ensures
        match r {
            Some(p) => p == first_delim(s@),
            None => first_delim(s@) == -1,
        },
{
    let n = s.unicode_len();
    if n < 2 {
        proof {
            assert(forall|j: int| !has_delim_at(s@, j));
            lemma_first_delim(s@);
        }
        return None;
    }
    let mut i: usize = 0;
    while i < n - 1
        invariant
            n == s@.len(),
            2 <= n,
            i <= n - 1,
            forall|j: int| 0 <= j < i ==> !has_delim_at(s@, j),
        decreases n - i,
    {
        if s.get_char(i) == '"' && s.get_char(i + 1) == ' ' {
            proof {
                lemma_first_delim(s@);
                let f = first_delim(s@);
                if f != i {
                    if f == -1 || f > i {
                        assert(!has_delim_at(s@, i as int));
                    } else {
                        assert(!has_delim_at(s@, f));
                    }
                }
            }
            return Some(i);
        }
        i += 1;
    }
    proof {
        assert(forall|j: int| !has_delim_at(s@, j));
        lemma_first_delim(s@);
    }
    None
}

/// `msg` is a well-formed accept command: the send prefix, then a filename
/// and a trailing field separated by exactly one quote-space delimiter.
pub open spec fn is_accept_cmd(msg: Seq<char>) -> bool {
    let t = msg.skip(7);
    let p = first_delim(t);
    msg.len() > 8 && msg.take(7) == ":send \""@ && p >= 0 && first_delim(t.skip(p + 2)) == -1
}

/// The filename field of an accept command.
pub open spec fn accept_name(msg: Seq<char>) -> Seq<char> {
    let t = msg.skip(7);
    t.take(first_delim(t))
}

/// The trailing field of an accept command.
pub open spec fn accept_rest(msg: Seq<char>) -> Seq<char> {
    let t = msg.skip(7);
    t.skip(first_delim(t) + 2)
}

/// Parse a `:send "<name>" <rest>` announcement into its filename and
/// trailing field, when the line splits on exactly one quote-space
/// delimiter after the prefix.
pub fn parse_accept_file(msg: &String) -> (r: Option<(String, String)>)
    ensures
        match r {
            Some(parts) => is_accept_cmd(msg@) && parts.0@ == accept_name(msg@) && parts.1@
                == accept_rest(msg@),
            None => !is_accept_cmd(msg@),
        },
{
    proof {
        reveal_strlit(":send \"");
    }
    let n = msg.as_str().unicode_len();
    if n <= 8 {
        return None;
    }
    if !matches_at(msg.as_str(), ":send \"", 7) {
        return None;
    }
    let tail = msg.as_str().substring_char(7, n);
    proof {
        assert(tail@ =~= msg@.skip(7));
    }
    match find_delim(tail) {
        None => None,
        Some(p) => {
            proof {
                lemma_first_delim(tail@);
                assert(has_delim_at(tail@, p as int));
            }
            let tlen = n - 7;
            let rest = tail.substring_char(p + 2, tlen);
            proof {
                assert(rest@ =~= tail@.skip(p + 2));
            }
            match find_delim(rest) {
                Some(_) => None,
                None => {
                    let a = tail.substring_char(0, p).to_owned();
                    proof {
                        assert(a@ =~= accept_name(msg@));
                    }
                    Some((a, rest.to_owned()))
                },
            }
        },
    }
}

/// What one line of local input asks for.
#[derive(Debug, PartialEq, Eq)]
pub enum InputAction {
    /// Upload the file at this path over the sideband.
    SendFile(String),
    /// Download the file of this name over the sideband.
    ReceiveFile(String),
    /// An ordinary chat line for the wire.
    Chat(String),
}

/// Decide what a line of local input asks for: a send command, a receive
/// command, or chat, in that order.
pub fn classify_input(line: &String) -> (r: InputAction)
    ensures
        is_send_cmd(line@) ==> (r matches InputAction::SendFile(p) && p@ == send_path(line@)),
        !is_send_cmd(line@) && is_receive_cmd(line@) ==> (r matches InputAction::ReceiveFile(f)
            && f@ == receive_path(line@)),
        !is_send_cmd(line@) && !is_receive_cmd(line@) ==> (r matches InputAction::Chat(l) && l@
            == line@),
{
    match parse_send_file(line) {
        Some(path) => InputAction::SendFile(path),
        None => match parse_receive_file(line) {
            Some(name) => InputAction::ReceiveFile(name),
            None => InputAction::Chat(line.clone()),
        },
    }
}

/// Pick the display name and the server address: a command-line argument
/// wins, then the stored configuration, then the built-in default.
pub fn resolve_params(
    arg_name: Option<String>,
    arg_ip: Option<String>,
    cfg_name: Option<String>,
    cfg_ip: Option<String>,
) -> (r: (String, String))
    ensures
        r.0@ == (match arg_name {
            Some(n) => n@,
            None => match cfg_name {
                Some(n) => n@,
                None => "UnnamedUser"@,
            },
        }),
        r.1@ == (match arg_ip {
            Some(ip) => ip@,
            None => match cfg_ip {
                Some(ip) => ip@,
                None => "89.67.243.241"@,
            },
        }),
{
    let name = match arg_name {
        Some(n) => n,
        None => match cfg_name {
            Some(n) => n,
            None => String::from_str("UnnamedUser"),
        },
    };
    let ip = match arg_ip {
        Some(ip) => ip,
        None => match cfg_ip {
            Some(ip) => ip,
            None => String::from_str("89.67.243.241"),
        },
    };
    (name, ip)
}

} // verus!
