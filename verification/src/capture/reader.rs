//! What a capture hands out.
use vstd::prelude::*;
use vstd::string::*;

verus! {

/// The number that a capture gives a client.
pub type ClientId = u32;

/// Bytes that a client sent, and when. `connect` says that they are the first
/// of a connection.
pub struct CaptureData<'a> {
    pub id: ClientId,
    pub ts: u64,
    pub connect: bool,
    pub buf: &'a [u8],
}

/// Why a capture hands out nothing more.
#[derive(Debug)]
pub enum ReadError {
    Eof,
    Error(String),
}

/// How a capture is kept.
#[derive(Debug, Clone, Copy, PartialEq, Eq, Structural)]
pub enum CaptureKind {
    /// Packets in a file.
    Pcap,
    /// Records in the chunks of a folder.
    Acap,
}

/// How the capture at a path is kept, by what is there: a file or a folder. Where
/// there is neither, the message says so.
pub fn read_capture(is_file: bool, is_dir: bool, abs_path: &str) -> (r: Result<
    CaptureKind,
    String,
>)
    ensures
        match r {
            Ok(kind) => if is_file {
                kind == CaptureKind::Pcap
            } else {
                is_dir && kind == CaptureKind::Acap
            },
            Err(e) => !is_file && !is_dir && e@ == "File does not exist: "@ + abs_path@,
        },
{
    if is_file {
        Ok(CaptureKind::Pcap)
    } else if is_dir {
        Ok(CaptureKind::Acap)
    } else {
        let mut e = String::new();
        e.append("File does not exist: ");
        e.append(abs_path);
        assert(e@ =~= "File does not exist: "@ + abs_path@);
        Err(e)
    }
}

/// What is done with the folder of a new capture.
#[derive(Debug, Clone, Copy, PartialEq, Eq, Structural)]
pub enum OutputPlan {
    /// It is created.
    Create,
    /// It is removed with all that is in it, and created anew.
    Remove,
}

/// What is done with the folder of a new capture, by what is there at its path. A folder
/// that is there is removed only where `rewrite` asks for it.
pub fn output_plan(found: bool, is_dir: bool, rewrite: bool, path: &str) -> (r: Result<
    OutputPlan,
    String,
>)
    ensures
        if !found {
            r matches Ok(plan) && plan == OutputPlan::Create
        } else if !is_dir {
            r matches Err(e) && e@ == "Not a directory: "@ + path@
        } else if rewrite {
            r matches Ok(plan) && plan == OutputPlan::Remove
        } else {
            r matches Err(e) && e@ == "Output directory exists: "@ + path@
        },
{
    if !found {
        return Ok(OutputPlan::Create);
    }
    let mut e = String::new();
    if !is_dir {
        e.append("Not a directory: ");
        e.append(path);
        assert(e@ =~= "Not a directory: "@ + path@);
        return Err(e);
    }
    if rewrite {
        return Ok(OutputPlan::Remove);
    }
    e.append("Output directory exists: ");
    e.append(path);
    assert(e@ =~= "Output directory exists: "@ + path@);
    Err(e)
}

} // verus!
