//! Where the daemon and its windows meet.

use crate::paths;
use crate::text;
use vstd::prelude::*;

verus! {

/// The socket: where the environment says, else in the runtime directory, else
/// in `/tmp`. Empty settings count as none.
pub open spec fn socket_for(sock: Option<Seq<char>>, runtime: Option<Seq<char>>) -> Seq<char> {
    if sock is Some && sock->0.len() > 0 {
        sock->0
    } else {
        let base = if runtime is Some && runtime->0.len() > 0 {
            runtime->0
        } else {
            "/tmp"@
        };
        paths::below(paths::below(base, "pardon"@), "ipc.sock"@)
    }
}

/// The path of the socket.
pub fn socket_path(sock: &Option<String>, runtime: &Option<String>) -> (r: String)
    ensures
        r@ == socket_for(sock.deep_view(), runtime.deep_view()),
{
    match sock {
        Some(p) => if !text::empty(p) {
            return text::copy(p);
        },
        None => {},
    }
    let mut base = text::copy("/tmp");
    match runtime {
        Some(d) => if !text::empty(d) {
            base = text::copy(d);
        },
        None => {},
    }
    paths::join(&paths::join(&base, "pardon"), "ipc.sock")
}

/// A named socket is the socket. Otherwise it is `pardon/ipc.sock` below the
/// runtime directory, and below `/tmp` where there is none; an empty name and an
/// empty directory count as none.
pub proof fn law_socket(sock: Option<Seq<char>>, runtime: Option<Seq<char>>)
    ensures
        sock is Some && sock->0.len() > 0 ==> socket_for(sock, runtime) == sock->0,
        (sock is None || sock->0.len() == 0) && runtime is Some && runtime->0.len() > 0
            && runtime->0.last() != '/' ==> socket_for(sock, runtime) == runtime->0
            + "/pardon/ipc.sock"@,
        (sock is None || sock->0.len() == 0) && (runtime is None || runtime->0.len() == 0)
            ==> socket_for(sock, runtime) == "/tmp/pardon/ipc.sock"@,
{
    reveal_strlit("/pardon/ipc.sock");
    reveal_strlit("/tmp/pardon/ipc.sock");
    reveal_strlit("pardon");
    reveal_strlit("ipc.sock");
    reveal_strlit("/tmp");
    let dir = |base: Seq<char>| paths::below(base, "pardon"@);
    let base = if runtime is Some && runtime->0.len() > 0 {
        runtime->0
    } else {
        "/tmp"@
    };
    if base.last() != '/' {
        assert(dir(base) =~= base + seq!['/'] + "pardon"@);
        assert(dir(base).last() == "pardon"@.last());
        assert(paths::below(dir(base), "ipc.sock"@) =~= base + "/pardon/ipc.sock"@);
    }
    assert("/tmp"@ + "/pardon/ipc.sock"@ =~= "/tmp/pardon/ipc.sock"@);
}

} // verus!
