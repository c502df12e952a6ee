//! The file descriptor through which the grain talks to its supervisor.

use vstd::prelude::*;

verus! {

#[verifier::external_type_specification]
#[verifier::external_body]
pub struct ExIoError(std::io::Error);

/// Calls `std::io::Error::last_os_error`. Its result is read from `errno`,
/// so nothing is stated of it.
#[verifier::external_body]
fn last_os_error() -> (e: std::io::Error) {
    std::io::Error::last_os_error()
}

/// Turns the return value of a system call into a `Result`: `-1` signals an
/// error, which is then read from `errno`; any other value is passed through.
pub fn cvt(t: isize) -> (r: std::io::Result<isize>)
    ensures
        r is Err <==> t == -1,
        r matches Ok(v) ==> v == t,
{
    if t == -1 {
        Err(last_os_error())
    } else {
        Ok(t)
    }
}

/// The number of bytes a `read` or `write` system call reports, or the error
/// it signals with `-1`.
pub fn byte_count(ret: isize) -> (r: std::io::Result<usize>)
    ensures
        r is Err <==> ret == -1,
        r matches Ok(n) ==> n == ret as usize,
{
    match cvt(ret) {
        Ok(n) => Ok(n as usize),
        Err(e) => Err(e),
    }
}

/// A raw file descriptor, read and written with the system calls.
#[derive(Clone, Copy)]
pub struct FdStream {
    fd: i32,
}

impl FdStream {
    /// The descriptor this stream reads and writes.
    pub closed spec fn spec_fd(&self) -> i32 {
        self.fd
    }

    pub fn new(fd: i32) -> (s: FdStream)
        ensures
            s.spec_fd() == fd,
    {
        FdStream { fd }
    }

    pub fn fd(&self) -> (r: i32)
        ensures
            r == self.spec_fd(),
    {
        self.fd
    }
}

} // verus!
