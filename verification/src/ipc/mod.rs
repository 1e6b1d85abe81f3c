//! The status protocol for file managers: requests, responses, and how a
//! message is framed on the socket.
pub mod server;

use vstd::prelude::*;
use vstd::string::*;
use crate::text::{append_decimal, decimal};

verus! {

/// What a client asks.
#[derive(Debug)]
pub enum IpcRequest {
    /// The sync status of the file at `path`.
    GetFileStatus { path: String },
    /// Whether the server is there.
    Ping,
}

/// What the server answers.
#[derive(Debug)]
pub enum IpcResponse {
    /// The sync status of the file that was asked for.
    FileStatus(SyncStatus),
    /// The answer to `Ping`.
    Pong,
    /// The request could not be served.
    Error { message: String },
}

/// The sync status of a file.
#[derive(Debug, Clone, Copy, PartialEq, Eq, Structural)]
pub enum SyncStatus {
    /// The file is as the remote has it.
    Synced,
    /// An upload is under way.
    Syncing,
    /// A local change waits to be pushed.
    Pending,
    /// The last synchronization failed.
    Error,
    /// The path does not lead to a file of the mount.
    Unknown,
}

/// The greatest length of a message, in bytes.
pub const MAX_MESSAGE_LEN: usize = 4096;

/// Why a frame was refused.
#[derive(Debug, Clone, Copy, PartialEq, Eq, Structural)]
pub enum FrameError {
    /// The message is longer than `MAX_MESSAGE_LEN`, or than a header can say.
    TooLarge,
}

/// The number that four bytes stand for, the most significant first.
pub open spec fn be32(b0: u8, b1: u8, b2: u8, b3: u8) -> nat {
    (b0 as nat) * 16777216 + (b1 as nat) * 65536 + (b2 as nat) * 256 + (b3 as nat)
}

/// The path of the socket of user `uid`.
pub open spec fn socket_path_spec(uid: u32) -> Seq<char> {
    "/run/user/"@ + decimal(uid as nat) + "/gdrivexp.sock"@
}

/// The path of the socket of user `uid`, in the user's runtime directory.
pub fn get_socket_path(uid: u32) -> (path: String)
    ensures
        path@ == socket_path_spec(uid),
{
    let mut path = String::from_str("/run/user/");
    append_decimal(&mut path, uid as u64);
    path.append("/gdrivexp.sock");
    path
}

/// The length that the header of a frame announces. A message may have at
/// most `MAX_MESSAGE_LEN` bytes.
pub fn frame_length(header: [u8; 4]) -> (r: Result<usize, FrameError>)
    ensures
        be32(header[0], header[1], header[2], header[3]) <= MAX_MESSAGE_LEN ==> r == Ok::<
            usize,
            FrameError,
        >(be32(header[0], header[1], header[2], header[3]) as usize),
        be32(header[0], header[1], header[2], header[3]) > MAX_MESSAGE_LEN ==> r == Err::<
            usize,
            FrameError,
        >(FrameError::TooLarge),
{
    let len: u32 = (header[0] as u32) * 16777216 + (header[1] as u32) * 65536 + (header[2] as u32)
        * 256 + (header[3] as u32);
    if len > 4096 {
        Err(FrameError::TooLarge)
    } else {
        Ok(len as usize)
    }
}

/// The frame of a message: its length in four bytes, the most significant
/// first, and then the message.
pub open spec fn frame_spec(payload: Seq<u8>) -> Seq<u8> {
    let n = payload.len();
    seq![
        ((n / 16777216) % 256) as u8,
        ((n / 65536) % 256) as u8,
        ((n / 256) % 256) as u8,
        (n % 256) as u8,
    ] + payload
}

/// Frames a message. A message whose length four bytes cannot say is
/// refused.
pub fn encode_frame(payload: &Vec<u8>) -> (r: Result<Vec<u8>, FrameError>)
    ensures
        payload@.len() <= u32::MAX ==> r is Ok && r->Ok_0@ == frame_spec(payload@),
        payload@.len() > u32::MAX ==> r == Err::<Vec<u8>, FrameError>(FrameError::TooLarge),
{
    let n = payload.len();
    if n > 0xffff_ffff {
        return Err(FrameError::TooLarge);
    }
    let mut out: Vec<u8> = Vec::new();
    out.push(((n / 16777216) % 256) as u8);
    out.push(((n / 65536) % 256) as u8);
    out.push(((n / 256) % 256) as u8);
    out.push((n % 256) as u8);
    let mut i: usize = 0;
    while i < n
        invariant
            n == payload.len(),
            i <= n,
            out@ == frame_spec(payload@).subrange(0, 4 + i),
        decreases n - i,
    {
        out.push(payload[i]);
        assert(out@ =~= frame_spec(payload@).subrange(0, 4 + i + 1));
        i += 1;
    }
    assert(out@ =~= frame_spec(payload@));
    Ok(out)
}

/// The header of a frame says the length of its message.
pub proof fn law_frame_round_trip(payload: Seq<u8>)
    requires
        payload.len() <= u32::MAX,
    ensures
        frame_spec(payload).len() == payload.len() + 4,
        be32(
            frame_spec(payload)[0],
            frame_spec(payload)[1],
            frame_spec(payload)[2],
            frame_spec(payload)[3],
        ) == payload.len(),
        frame_spec(payload).subrange(4, frame_spec(payload).len() as int) == payload,
{
    let n = payload.len();
    let f = frame_spec(payload);
    assert(f.subrange(4, f.len() as int) =~= payload);
    assert(n == (n / 16777216) * 16777216 + ((n / 65536) % 256) * 65536 + ((n / 256) % 256) * 256
        + (n % 256)) by (nonlinear_arith)
        requires
            0 <= n,
    ;
    assert((n / 16777216) % 256 == n / 16777216) by (nonlinear_arith)
        requires
            0 <= n <= 0xffff_ffff,
    ;
}

} // verus!
