//! The wire side of the protocol: the commands, the length-prefixed chunk
//! framing of streamed uploads, and what a reply to them means.
use vstd::prelude::*;
use vstd::slice::slice_subrange;
use vstd::string::StringExecFns;
use byteorder::ByteOrder;
use crate::error::ClamError;
use crate::response::{scan_segments, ScanResult};

verus! {

/// The size of the window that a streamed upload reads and frames at a time.
pub const STREAM_WINDOW: usize = 4096;

/// The commands that take no argument.
#[derive(Debug, Clone, Copy, PartialEq, Eq)]
pub enum Command {
    Ping,
    Version,
    Reload,
    Stats,
    Shutdown,
    Instream,
}

/// The text sent for a command without argument.
pub open spec fn command_spec(c: Command) -> Seq<char> {
    match c {
        Command::Ping => "zPING\0"@,
        Command::Version => "zVERSION\0"@,
        Command::Reload => "zRELOAD\0"@,
        Command::Stats => "zSTATS\0"@,
        Command::Shutdown => "zSHUTDOWN\0"@,
        Command::Instream => "zINSTREAM\0"@,
    }
}

/// The NUL-terminated text of a command without argument.
pub fn command_text(c: Command) -> (r: String)
    ensures
        r@ == command_spec(c),
{
    match c {
        Command::Ping => String::from_str("zPING\0"),
        Command::Version => String::from_str("zVERSION\0"),
        Command::Reload => String::from_str("zRELOAD\0"),
        Command::Stats => String::from_str("zSTATS\0"),
        Command::Shutdown => String::from_str("zSHUTDOWN\0"),
        Command::Instream => String::from_str("zINSTREAM\0"),
    }
}

/// The command that scans `path`: `zCONTSCAN` goes on past infections,
/// `zSCAN` stops at the first.
pub fn scan_command(path: &str, continue_on_virus: bool) -> (r: String)
    ensures
        r@ == (if continue_on_virus {
            "zCONTSCAN "@
        } else {
            "zSCAN "@
        }) + path@ + "\0"@,
{
    let mut c = if continue_on_virus {
        String::from_str("zCONTSCAN ")
    } else {
        String::from_str("zSCAN ")
    };
    c.append(path);
    c.append("\0");
    c
}

/// Whether the reply to a ping says the daemon is alive.
pub fn is_pong(reply: &str) -> (r: bool)
    ensures
        r == (reply@ == "PONG"@),
{
    reply.to_owned() == String::from_str("PONG")
}

/// The four bytes of `n`, most significant first.
pub open spec fn be32(n: u32) -> Seq<u8> {
    seq![
        (n / 0x1000000) as u8,
        ((n / 0x10000) % 0x100) as u8,
        ((n / 0x100) % 0x100) as u8,
        (n % 0x100) as u8,
    ]
}

/// Relies on byteorder's `BigEndian::write_u32`: it writes `n` into the
/// first four bytes, most significant first.
#[verifier::external_body]
fn be_bytes(n: u32) -> (r: [u8; 4])
    ensures
        r@ == be32(n),
{
    let mut b = [0u8; 4];
    byteorder::BigEndian::write_u32(&mut b, n);
    b
}

/// A chunk as it is sent: its length on four bytes, big-endian, then its
/// bytes.
pub open spec fn frame(c: Seq<u8>) -> Seq<u8> {
    be32(c.len() as u32) + c
}

/// The frame that ends a streamed upload: a length of zero.
pub open spec fn end_frame() -> Seq<u8> {
    seq![0u8, 0u8, 0u8, 0u8]
}

/// The bytes of `zINSTREAM` and its NUL, which open a streamed upload.
pub open spec fn instream_command() -> Seq<u8> {
    seq![122u8, 73u8, 78u8, 83u8, 84u8, 82u8, 69u8, 65u8, 77u8, 0u8]
}

/// `d` cut into windows of `STREAM_WINDOW` bytes, the last one shorter, each
/// framed.
pub open spec fn window_frames(d: Seq<u8>) -> Seq<u8>
    decreases d.len(),
{
    if d.len() == 0 {
        seq![]
    } else if d.len() <= STREAM_WINDOW {
        frame(d)
    } else {
        frame(d.take(STREAM_WINDOW as int)) + window_frames(d.skip(STREAM_WINDOW as int))
    }
}

fn push_all(out: &mut Vec<u8>, b: &[u8])
    ensures
        final(out)@ == old(out)@ + b@,
{
    let mut i: usize = 0;
    while i < b.len()
        invariant
            i <= b@.len(),
            out@ == old(out)@ + b@.take(i as int),
        decreases b@.len() - i,
    {
        out.push(b[i]);
        proof {
            assert(b@.take(i + 1) =~= b@.take(i as int).push(b@[i as int]));
        }
        i = i + 1;
    }
    proof {
        assert(b@.take(b@.len() as int) =~= b@);
    }
}

fn push_frame(out: &mut Vec<u8>, c: &[u8])
    requires
        c@.len() <= u32::MAX,
    ensures
        final(out)@ == old(out)@ + frame(c@),
{
    let len = be_bytes(c.len() as u32);
    push_all(out, &len);
    push_all(out, c);
    proof {
        assert(old(out)@ + be32(c@.len() as u32) + c@ =~= old(out)@ + frame(c@));
    }
}

/// The frame of one chunk. A chunk too long for the 32-bit length prefix is
/// refused, and nothing is framed.
pub fn chunk_frame(chunk: &[u8]) -> (r: Result<Vec<u8>, ClamError>)
    ensures
        r is Err <==> chunk@.len() > u32::MAX,
        r matches Ok(f) ==> f@ == frame(chunk@),
        r matches Err(e) ==> (e is InvalidDataLength && e->InvalidDataLength_0 == chunk@.len()),
{
    if chunk.len() as u64 > 0xffff_ffffu64 {
        return Err(ClamError::InvalidDataLength(chunk.len()));
    }
    let mut out: Vec<u8> = Vec::new();
    push_frame(&mut out, chunk);
    proof {
        assert(Seq::<u8>::empty() + frame(chunk@) =~= frame(chunk@));
    }
    Ok(out)
}

/// The frame that ends a streamed upload.
pub fn end_of_stream() -> (r: Vec<u8>)
    ensures
        r@ == end_frame(),
{
    let r: Vec<u8> = vec![0u8, 0u8, 0u8, 0u8];
    proof {
        assert(r@ =~= end_frame());
    }
    r
}

/// The whole of a streamed upload of `data`: the command, `data` framed
/// window by window, and the frame that ends it.
pub fn instream_request(data: &[u8]) -> (r: Vec<u8>)
    ensures
        r@ == instream_command() + window_frames(data@) + end_frame(),
{
    let mut out: Vec<u8> = vec![122u8, 73u8, 78u8, 83u8, 84u8, 82u8, 69u8, 65u8, 77u8, 0u8];
    proof {
        assert(out@ =~= instream_command());
        assert(data@.skip(0) =~= data@);
    }
    let mut pos: usize = 0;
    while pos < data.len()
        invariant
            pos <= data@.len(),
            out@ + window_frames(data@.skip(pos as int)) == instream_command() + window_frames(
                data@,
            ),
        decreases data@.len() - pos,
    {
        let end: usize = if data.len() - pos > STREAM_WINDOW {
            pos + STREAM_WINDOW
        } else {
            data.len()
        };
        let chunk = slice_subrange(data, pos, end);
        let ghost before = out@;
        push_frame(&mut out, chunk);
        proof {
            let rest = data@.skip(pos as int);
            if rest.len() > STREAM_WINDOW {
                assert(rest.take(STREAM_WINDOW as int) =~= chunk@);
                assert(rest.skip(STREAM_WINDOW as int) =~= data@.skip(end as int));
                assert(before + (frame(chunk@) + window_frames(data@.skip(end as int))) =~= out@
                    + window_frames(data@.skip(end as int)));
            } else {
                assert(rest =~= chunk@);
                assert(data@.skip(end as int) =~= Seq::<u8>::empty());
                assert(out@ + window_frames(data@.skip(end as int)) =~= out@);
            }
        }
        pos = end;
    }
    proof {
        assert(data@.skip(pos as int) =~= Seq::<u8>::empty());
        assert(out@ + window_frames(data@.skip(pos as int)) =~= out@);
    }
    let end = end_of_stream();
    push_all(&mut out, end.as_slice());
    out
}

/// What to do with one read of a pulled upload: the frame to send, if any,
/// and whether to read again.
#[derive(Debug, PartialEq)]
pub struct StreamStep {
    /// The bytes to send: the read framed, or nothing for an empty read.
    pub frame: Vec<u8>,
    /// Whether the read filled the window, so that more may follow.
    pub more: bool,
}

/// Decides what one read of a pulled upload sends. An empty read ends the
/// upload and sends nothing; a read shorter than the window is sent and
/// ends it; a read that fills the window is sent and another follows. A
/// read too long for the 32-bit length prefix is refused before anything
/// is sent.
pub fn stream_step(read: &[u8]) -> (r: Result<StreamStep, ClamError>)
    ensures
        r is Err <==> read@.len() > u32::MAX,
        r matches Err(e) ==> (e is InvalidDataLength && e->InvalidDataLength_0 == read@.len()),
        r matches Ok(st) ==> {
            &&& st.frame@ == (if read@.len() == 0 {
                Seq::<u8>::empty()
            } else {
                frame(read@)
            })
            &&& st.more == (read@.len() >= STREAM_WINDOW)
        },
{
    if read.len() == 0 {
        return Ok(StreamStep { frame: Vec::new(), more: false });
    }
    match chunk_frame(read) {
        Ok(f) => Ok(StreamStep { frame: f, more: read.len() >= STREAM_WINDOW }),
        Err(e) => Err(e),
    }
}

/// The verdict of a streamed upload: the first record of the reply; a reply
/// without any record is malformed.
pub fn single_verdict(reply: &str) -> (r: Result<ScanResult, ClamError>)
    ensures
        r is Err <==> scan_segments(reply@).len() == 0,
        r matches Ok(v) ==> v.is_verdict_of(scan_segments(reply@)[0]),
        r matches Err(e) ==> (e is InvalidData && e->InvalidData_0@ == reply@),
{
    let mut all = ScanResult::parse(reply);
    if all.len() == 0 {
        return Err(ClamError::InvalidData(reply.to_owned()));
    }
    Ok(all.remove(0))
}

} // verus!
