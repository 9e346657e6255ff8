//! How the recorder starts: one at a time, with a display, with its extension.

use vstd::prelude::*;
use vstd::utf8::encode_utf8;

verus! {

/// What comes of the socket that holds the claim to be the only recorder.
pub enum Claim {
    /// There is no socket to claim with: run rather than refuse.
    Granted,
    /// The address to bind: the bytes of its path, and the length of the whole.
    Bind { path: Vec<u8>, len: u32 },
}

/// The bytes of an abstract socket's path: a zero, then the name.
pub open spec fn claim_path() -> Seq<u8> {
    seq![0u8] + encode_utf8("yank-watch"@)
}

/// What to do with the socket, by its descriptor: a negative one is none.
/// `family_size` is the size of an address family, which stands before the path.
pub fn claim(fd: i32, family_size: u16) -> (c: Claim)
    ensures
        c is Granted <==> fd < 0,
        c matches Claim::Bind { path, len } ==> path@ == claim_path() && path@.len() == 11 && len
            == family_size + path@.len(),
{
    if fd < 0 {
        return Claim::Granted;
    }
    let name: &[u8] = "yank-watch".as_bytes();
    let mut path: Vec<u8> = Vec::new();
    path.push(0);
    path.extend_from_slice(name);
    proof {
        reveal_strlit("yank-watch");
        vstd::utf8::is_ascii_chars_encode_utf8("yank-watch"@);
        assert(path@ =~= claim_path());
    }
    let len: u32 = family_size as u32 + path.len() as u32;
    Claim::Bind { path, len }
}

/// Whether the claim holds, by what binding the address returned.
pub fn claim_holds(bound: i32) -> (r: bool)
    ensures
        r == (bound == 0),
{
    bound == 0
}

/// The steps of the start.
pub enum Stage {
    Claim,
    Connect,
    Extension,
}

/// Where the start goes on.
pub enum Startup {
    Next { stage: Stage },
    Ready,
    /// The program ends, with a line for the user and an exit code.
    Quit { line: String, code: i32 },
}

/// The line with which a failed step ends the program.
pub open spec fn failure_line(stage: Stage, detail: Seq<char>) -> Seq<char> {
    match stage {
        Stage::Claim => "yank: watcher already running"@,
        Stage::Connect => "yank: no X display: "@ + detail,
        Stage::Extension => "yank: XFixes unavailable"@,
    }
}

/// The exit code: a second recorder is no failure.
pub open spec fn failure_code(stage: Stage) -> i32 {
    match stage {
        Stage::Claim => 0,
        Stage::Connect => 1,
        Stage::Extension => 1,
    }
}

/// The start begins with the claim.
pub fn first_stage() -> (stage: Stage)
    ensures
        stage == Stage::Claim,
{
    Stage::Claim
}

/// Goes on from a step that succeeded, and ends where one failed. `detail` says
/// why there is no display.
pub fn proceed(stage: Stage, ok: bool, detail: &str) -> (s: Startup)
    ensures
        ok ==> s == match stage {
            Stage::Claim => (Startup::Next { stage: Stage::Connect }),
            Stage::Connect => (Startup::Next { stage: Stage::Extension }),
            Stage::Extension => Startup::Ready,
        },
        !ok ==> (s matches Startup::Quit { line, code } && line@ == failure_line(stage, detail@)
            && code == failure_code(stage)),
{
    if ok {
        match stage {
            Stage::Claim => Startup::Next { stage: Stage::Connect },
            Stage::Connect => Startup::Next { stage: Stage::Extension },
            Stage::Extension => Startup::Ready,
        }
    } else {
        match stage {
            Stage::Claim => Startup::Quit {
                line: "yank: watcher already running".to_owned(),
                code: 0,
            },
            Stage::Connect => {
                let mut line: String = "yank: no X display: ".to_owned();
                line.append(detail);
                Startup::Quit { line, code: 1 }
            },
            Stage::Extension => Startup::Quit {
                line: "yank: XFixes unavailable".to_owned(),
                code: 1,
            },
        }
    }
}

/// Each failure is told by its own line, and a missing display with the reason in
/// full. Only a recorder that already runs is no failure to the caller.
pub proof fn each_failure_is_told(stage: Stage, detail: Seq<char>)
    ensures
        stage is Claim ==> failure_line(stage, detail) == "yank: watcher already running"@,
        stage is Connect ==> failure_line(stage, detail) == "yank: no X display: "@ + detail,
        stage is Extension ==> failure_line(stage, detail) == "yank: XFixes unavailable"@,
        failure_code(stage) == 0 <==> stage is Claim,
        failure_code(stage) != 0 ==> failure_code(stage) == 1,
{
}

} // verus!
