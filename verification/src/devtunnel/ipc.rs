//! The messages between a proxy and the manager of its connector, and the files that
//! they find each other by.

use crate::paths::{join_path, placed, PathStyle};
use vstd::prelude::*;

verus! {

/// The version of the messages.
pub const VERSION: u32 = 1;

/// The longest message, in bytes.
pub const LONGEST_MESSAGE: usize = 4096;

/// Where a manager listens, and what a proxy must know to be heard.
#[derive(Debug)]
pub struct Endpoint {
    pub port: u16,
    pub token: String,
}

/// What a proxy asks for.
#[derive(Debug)]
pub struct Request {
    pub version: u32,
    pub token: String,
    pub remote_port: u16,
    pub local_port: Option<u16>,
}

/// What a manager answers.
#[derive(Debug)]
pub struct Response {
    pub version: u32,
    pub error: Option<String>,
}

/// The length of a message as four bytes, the highest first.
pub open spec fn length_bytes(n: int) -> Seq<u8> {
    seq![
        (n / 16777216 % 256) as u8,
        (n / 65536 % 256) as u8,
        (n / 256 % 256) as u8,
        (n % 256) as u8,
    ]
}

/// The number that four bytes stand for, the highest first.
pub open spec fn length_of(a: u8, b: u8, c: u8, d: u8) -> int {
    a * 16777216 + b * 65536 + c * 256 + d
}

/// A message as it is sent: its length and then its bytes.
pub open spec fn framed(message: Seq<u8>) -> Seq<u8> {
    length_bytes(message.len() as int) + message
}

/// A message as it is sent: its length and then its bytes.
pub fn frame(message: &Vec<u8>) -> (r: Result<Vec<u8>, String>)
    ensures
        r is Ok <==> message@.len() <= LONGEST_MESSAGE,
        r matches Ok(b) ==> b@ == framed(message@),
        r matches Err(m) ==> m@ == "broker message too large"@,
{
    let n: usize = message.len();
    if n > LONGEST_MESSAGE {
        return Err("broker message too large".to_owned());
    }
    let mut out: Vec<u8> = Vec::new();
    out.push(0);
    out.push(0);
    out.push((n / 256) as u8);
    out.push((n % 256) as u8);
    assert(out@ =~= length_bytes(n as int));
    out.extend_from_slice(message.as_slice());
    assert(out@ =~= framed(message@));
    Ok(out)
}

/// The length of the message that four bytes announce, where it is not too long.
pub fn frame_length(header: [u8; 4]) -> (r: Result<usize, String>)
    ensures
        r is Ok <==> length_of(header@[0], header@[1], header@[2], header@[3]) <= LONGEST_MESSAGE,
        r matches Ok(n) ==> n == length_of(header@[0], header@[1], header@[2], header@[3]),
        r matches Err(m) ==> m@ == "broker message too large"@,
{
    let n: u64 = header[0] as u64 * 16777216 + header[1] as u64 * 65536 + header[2] as u64 * 256
        + header[3] as u64;
    if n > 4096 {
        Err("broker message too large".to_owned())
    } else {
        Ok(n as usize)
    }
}

/// What was sent is what is read: the first four bytes of a message announce its
/// length, and the message follows them.
pub proof fn frames_are_read_back(message: Seq<u8>)
    requires
        message.len() <= LONGEST_MESSAGE,
    ensures
        framed(message).len() == message.len() + 4,
        length_of(
            framed(message)[0],
            framed(message)[1],
            framed(message)[2],
            framed(message)[3],
        ) == message.len(),
        framed(message).skip(4) == message,
{
    assert(framed(message).skip(4) =~= message);
}

/// The directory of the managers in the state directory.
pub fn brokers_directory(style: PathStyle, root: &str) -> (r: String)
    ensures
        r@ == placed(style, root@, "brokers"@),
{
    join_path(style, root, "brokers")
}

/// What is known of a file or directory before it is trusted.
#[derive(Clone, Copy, Debug, PartialEq, Eq, Structural)]
pub struct FileFacts {
    pub is_file: bool,
    pub is_dir: bool,
    /// Whether it belongs to the user who runs this process.
    pub owned: bool,
    /// Its permissions.
    pub mode: u32,
    /// Its length in bytes.
    pub len: u64,
}

/// What is wrong with a path of a manager.
pub open spec fn path_fault(f: FileFacts) -> Option<Seq<char>> {
    if !f.is_file && !f.is_dir {
        Some("invalid broker path type"@)
    } else if !f.owned {
        Some("broker path has a different owner"@)
    } else {
        None
    }
}

/// The permissions to give a path of a manager, so that no other user can use it: a
/// directory is for its owner to enter and change, a file for its owner to read and
/// write.
pub fn private_mode(f: &FileFacts) -> (r: Result<u32, String>)
    ensures
        r is Ok <==> path_fault(*f) is None,
        r matches Ok(mode) ==> mode == (if f.is_dir {
            0o700u32
        } else {
            0o600u32
        }),
        r matches Err(m) ==> path_fault(*f) == Some(m@),
{
    if !f.is_file && !f.is_dir {
        return Err("invalid broker path type".to_owned());
    }
    if !f.owned {
        return Err("broker path has a different owner".to_owned());
    }
    Ok(if f.is_dir {
        0o700
    } else {
        0o600
    })
}

/// Checks the kind of a path before it is opened.
pub fn check_kind(is_file: bool, is_dir: bool) -> (r: Result<(), String>)
    ensures
        r is Ok <==> is_file || is_dir,
        r matches Err(m) ==> m@ == "broker path must be a regular file or directory"@,
{
    if is_file || is_dir {
        Ok(())
    } else {
        Err("broker path must be a regular file or directory".to_owned())
    }
}

/// What is wrong with the file that says where a manager listens.
pub open spec fn endpoint_fault(f: FileFacts) -> Option<Seq<char>> {
    if !f.is_file {
        Some("broker metadata must be a regular file"@)
    } else if !f.owned || f.mode & 0o077 != 0 {
        Some("broker metadata is not private to this user"@)
    } else if f.len > LONGEST_MESSAGE {
        Some("broker metadata too large"@)
    } else {
        None
    }
}

/// Checks the file that says where a manager listens: a regular file of this user that
/// no other user can use, and that is not too long.
pub fn check_endpoint(f: &FileFacts) -> (r: Result<(), String>)
    ensures
        r is Ok <==> endpoint_fault(*f) is None,
        r matches Err(m) ==> endpoint_fault(*f) == Some(m@),
{
    if !f.is_file {
        return Err("broker metadata must be a regular file".to_owned());
    }
    if !f.owned || f.mode & 0o077 != 0 {
        return Err("broker metadata is not private to this user".to_owned());
    }
    if f.len > 4096 {
        return Err("broker metadata too large".to_owned());
    }
    Ok(())
}

/// A file with the permissions that [`private_mode`] gives it passes the check, where
/// it is not too long.
pub proof fn secured_files_are_read(f: FileFacts)
    requires
        path_fault(f) is None,
        f.is_file,
        f.len <= LONGEST_MESSAGE,
    ensures
        endpoint_fault(FileFacts { mode: 0o600, ..f }) is None,
{
    assert(0o600u32 & 0o077u32 == 0) by (bit_vector);
}

/// The Windows access rules of a path of a manager: full access for the system and for
/// the user, and for nobody else, with the zero that ends such a text.
pub fn broker_descriptor(sid: &str) -> (r: String)
    ensures
        r@ == "D:P(A;OICI;FA;;;SY)(A;OICI;FA;;;"@ + sid@ + ")"@ + seq!['\0'],
{
    let mut r = "D:P(A;OICI;FA;;;SY)(A;OICI;FA;;;".to_owned();
    r.append(sid);
    r.append(")");
    r.push('\0');
    assert(r@ =~= "D:P(A;OICI;FA;;;SY)(A;OICI;FA;;;"@ + sid@ + ")"@ + seq!['\0']);
    r
}

/// Whether the attributes of a Windows file say that it stands for another one.
pub fn is_reparse_point(attributes: u32) -> (r: bool)
    ensures
        r == (attributes & 0x400 != 0),
{
    attributes & 0x400 != 0
}

/// A message begins with its length, the highest byte first, and has at most 4096 bytes.
pub proof fn lengths_are_sent_highest_first(message: Seq<u8>, a: u8, b: u8, c: u8, d: u8)
    ensures
        message.len() == 16777216 * a + 65536 * b + 256 * c + d ==> framed(message).take(4) == seq![
            a,
            b,
            c,
            d,
        ],
        length_of(a, b, c, d) == 16777216 * a + 65536 * b + 256 * c + d,
        LONGEST_MESSAGE == 4096,
        VERSION == 1,
{
    if message.len() == 16777216 * a + 65536 * b + 256 * c + d {
        assert(framed(message).take(4) =~= length_bytes(message.len() as int));
        let n = message.len() as int;
        assert(n / 16777216 == a);
        assert(n / 65536 == 256 * a + b);
        assert(n / 256 == 65536 * a + 256 * b + c);
        assert(framed(message).take(4) =~= seq![a, b, c, d]);
    }
}

/// A path of a manager is trusted exactly where it is a file or a directory of this user.
pub proof fn which_paths_are_trusted(f: FileFacts)
    ensures
        path_fault(f) is None <==> (f.is_file || f.is_dir) && f.owned,
        !f.is_file && !f.is_dir ==> path_fault(f) == Some("invalid broker path type"@),
        (f.is_file || f.is_dir) && !f.owned ==> path_fault(f) == Some(
            "broker path has a different owner"@,
        ),
{
}

/// What a manager says of itself is read exactly from a regular file of this user that neither
/// the group nor others may use, of at most 4096 bytes.
pub proof fn which_endpoints_are_read(f: FileFacts)
    ensures
        endpoint_fault(f) is None <==> f.is_file && f.owned && f.mode & 0o077 == 0 && f.len <= 4096,
        !f.is_file ==> endpoint_fault(f) == Some("broker metadata must be a regular file"@),
        f.is_file && (!f.owned || f.mode & 0o077 != 0) ==> endpoint_fault(f) == Some(
            "broker metadata is not private to this user"@,
        ),
{
}

} // verus!
