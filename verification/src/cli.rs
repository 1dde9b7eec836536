//! Command-line arguments of the server launcher.

use vstd::prelude::*;

verus! {

/// The flag at `args[i]` names the listening host.
pub open spec fn is_host_flag(a: Seq<char>) -> bool {
    a == "--host"@ || a == "--bind"@ || a == "-h"@
}

/// The flag at `args[i]` names the port.
pub open spec fn is_port_flag(a: Seq<char>) -> bool {
    a == "--port"@ || a == "-p"@
}

/// Host and port after reading `args` from position `i` on, starting from
/// `host` and `port`: a host or port flag takes the next argument when there
/// is one and skips it; any other argument is skipped.
pub open spec fn parsed_from(args: Seq<Seq<char>>, i: int, host: Seq<char>, port: Seq<char>) -> (Seq<char>, Seq<char>)
    decreases args.len() - i,
{
    if i < 0 || i >= args.len() {
        (host, port)
    } else if is_host_flag(args[i]) {
        if i + 1 < args.len() { parsed_from(args, i + 2, args[i + 1], port) } else { (host, port) }
    } else if is_port_flag(args[i]) {
        if i + 1 < args.len() { parsed_from(args, i + 2, host, args[i + 1]) } else { (host, port) }
    } else {
        parsed_from(args, i + 1, host, port)
    }
}

/// The views of a list of strings.
pub open spec fn views(args: Seq<String>) -> Seq<Seq<char>> {
    args.map_values(|a: String| a@)
}

/// Reads `--host`/`--bind`/`-h <addr>` and `--port`/`-p <port>`; the host
/// defaults to 127.0.0.1 and the port to 8080; unknown arguments are ignored.
pub fn parse_args(args: Vec<String>) -> (r: (String, String))
    ensures
        (r.0@, r.1@) == parsed_from(views(args@), 0, "127.0.0.1"@, "8080"@),
{
    let mut host = String::from_str("127.0.0.1");
    let mut port = String::from_str("8080");
    let ghost a = views(args@);
    let mut i: usize = 0;
    while i < args.len()
        invariant
            i <= args@.len(),
            a == views(args@),
            parsed_from(a, 0, "127.0.0.1"@, "8080"@) == parsed_from(a, i as int, host@, port@),
        decreases args@.len() - i,
    {
        let is_host = args[i] == String::from_str("--host") || args[i] == String::from_str("--bind")
            || args[i] == String::from_str("-h");
        let is_port = args[i] == String::from_str("--port") || args[i] == String::from_str("-p");
        if is_host {
            if i + 1 < args.len() {
                host = args[i + 1].clone();
                i = i + 2;
            } else {
                i = args.len();
            }
        } else if is_port {
            if i + 1 < args.len() {
                port = args[i + 1].clone();
                i = i + 2;
            } else {
                i = args.len();
            }
        } else {
            i = i + 1;
        }
    }
    (host, port)
}

} // verus!
