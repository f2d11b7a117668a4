//! Where the tools find the compositor.

use vstd::prelude::*;

use crate::text;

verus! {

/// A name inside a directory.
pub open spec fn joined(dir: Seq<char>, name: Seq<char>) -> Seq<char> {
    if dir.len() == 0 {
        name
    } else if dir.last() == '/' {
        dir + name
    } else {
        dir + "/"@ + name
    }
}

/// The path of `name` inside a directory.
pub fn join(dir: &str, name: &str) -> (path: String)
    ensures
        path@ == joined(dir@, name@),
{
    let cs: Vec<char> = text::chars_of(dir);
    let mut path: String = text::string_of(&cs, 0, cs.len());
    assert(cs@.subrange(0, cs@.len() as int) =~= dir@);
    if cs.len() > 0 && cs[cs.len() - 1] != '/' {
        path.push_str("/");
    }
    path.push_str(name);
    assert(dir@.len() == 0 ==> path@ =~= name@);
    path
}

/// The directory for sockets: that of the environment, or a common one.
pub open spec fn runtime_dir(given: Option<Seq<char>>) -> Seq<char> {
    match given {
        Some(d) => d,
        None => "/tmp"@,
    }
}

/// The path of the socket of the compositor. `given` is the value of
/// `XDG_RUNTIME_DIR`.
pub fn socket_path(given: &Option<String>) -> (path: String)
    ensures
        path@ == joined(runtime_dir(text::opt_view(*given)), "kara.sock"@),
{
    match given {
        Some(d) => join(d.as_str(), "kara.sock"),
        None => join("/tmp", "kara.sock"),
    }
}

/// A client of the compositor. It keeps no connection: the compositor reads
/// one request from each, so every request opens its own.
#[derive(Debug)]
pub struct IpcClient {
    /// The path of the socket that every request connects to.
    pub socket: String,
}

impl IpcClient {
    /// A client of the compositor whose socket is in the directory that
    /// `XDG_RUNTIME_DIR` gives. `reached` says whether a first connection
    /// succeeded.
    pub fn connect(given: &Option<String>, reached: bool) -> (out: Result<IpcClient, String>)
        ensures
            out is Ok <==> reached,
            out matches Ok(c) ==> c.socket@ == joined(
                runtime_dir(text::opt_view(*given)),
                "kara.sock"@,
            ),
            out matches Err(m) ==> m@ == "failed to connect to "@ + joined(
                runtime_dir(text::opt_view(*given)),
                "kara.sock"@,
            ),
    {
        let socket: String = socket_path(given);
        if reached {
            Ok(IpcClient { socket })
        } else {
            let mut m: String = String::new();
            m.push_str("failed to connect to ");
            m.push_str(socket.as_str());
            assert(m@ =~= "failed to connect to "@ + socket@);
            Err(m)
        }
    }
}

/// A name inside a directory starts with the directory and ends with the name,
/// with one slash between them where the directory does not end with one.
pub proof fn law_names_inside_directories(dir: Seq<char>, name: Seq<char>)
    requires
        dir.len() > 0,
    ensures
        ({
            let p = joined(dir, name);
            let n = p.len() - name.len();
            &&& p.take(dir.len() as int) == dir
            &&& p.skip(n) == name
            &&& p[n - 1] == '/'
            &&& dir.last() == '/' ==> n == dir.len()
            &&& dir.last() != '/' ==> n == dir.len() + 1
        }),
        joined(Seq::empty(), name) == name,
{
    reveal_strlit("/");
    let p = joined(dir, name);
    assert(p.take(dir.len() as int) =~= dir);
    assert(p.skip(p.len() - name.len()) =~= name);
}

} // verus!
