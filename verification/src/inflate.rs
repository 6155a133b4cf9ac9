//! Decoding of raw deflate data, one buffer of output at a time.

use miniz_oxide::inflate::stream::{inflate, InflateState};
use miniz_oxide::{DataFormat, MZError, MZFlush, MZStatus};
use vstd::prelude::*;
use vstd::slice::slice_subrange;
use vstd::string::*;

use crate::text::{decimal, decimal_text};
use crate::zip_error::{ZipFailure, ZipReadError};

verus! {

/// Bytes of output that one call of the decoder may give.
pub const INFLATE_ROOM: usize = 65536;

/// The decoder of `miniz_oxide`.
#[verifier::external_type_specification]
#[verifier::external_body]
pub struct ExInflateState(InflateState);

/// Why the decoder gave up.
#[derive(Debug, Clone, Copy, PartialEq, Eq, Structural)]
pub enum InflateFault {
    ErrNo,
    Stream,
    Data,
    Mem,
    Buf,
    Version,
    Param,
}

/// How one call of the decoder ended.
#[derive(Debug, Clone, Copy, PartialEq, Eq, Structural)]
pub enum InflateStatus {
    /// There is more to come.
    Progress,
    /// The end of the compressed data was found.
    StreamEnd,
    /// The data asks for a preset dictionary.
    NeedDict,
    /// The data could not be decoded.
    Failed(InflateFault),
}

/// What one call of the decoder gives: the number of input bytes it took, the
/// number of output bytes it wrote, and how it ended.
#[derive(Debug, Clone, Copy, PartialEq, Eq, Structural)]
pub struct InflateStep {
    pub consumed: usize,
    pub written: usize,
    pub status: InflateStatus,
}

/// The calls that a decoder of raw deflate data has served so far: for each, the
/// input and the room for output. `None` for a decoder made for another format,
/// or called with another flush mode than `MZFlush::None`.
pub uninterp spec fn inflate_calls(state: InflateState) -> Option<Seq<(Seq<u8>, nat)>>;

/// What `miniz_oxide::inflate::stream::inflate` gives for `input` and `room`
/// bytes of output space, after `calls`, on a machine with words of `word_bits`
/// bits: the number of bytes taken, the bytes written, and how the call ended.
pub uninterp spec fn inflate_result(
    calls: Seq<(Seq<u8>, nat)>,
    input: Seq<u8>,
    room: nat,
    word_bits: u32,
) -> (nat, Seq<u8>, InflateStatus);

/// `InflateState::new_boxed` with `DataFormat::Raw`: a decoder of raw deflate
/// data that has not been called yet.
#[verifier::external_body]
fn new_raw_decoder() -> (r: Box<InflateState>)
    ensures
        inflate_calls(*r) == Some(Seq::<(Seq<u8>, nat)>::empty()),
{
    InflateState::new_boxed(DataFormat::Raw)
}

/// `miniz_oxide::inflate::stream::inflate` with `MZFlush::None`. It takes bytes
/// from the start of `input`, writes to the start of `buf` and remembers the
/// call. What it takes and writes lies within its arguments, and is fixed by
/// the calls before, the input, the room and the word size. A call that neither
/// fails nor ends the data has taken or written something.
#[verifier::external_body]
fn inflate_step(state: &mut InflateState, input: &[u8], buf: &mut Vec<u8>) -> (r: InflateStep)
    requires
        old(buf)@.len() > 0,
        inflate_calls(*old(state)) is Some,
    ensures
        final(buf)@.len() == old(buf)@.len(),
        r.consumed <= input@.len(),
        r.written <= final(buf)@.len(),
        r.status is Progress || r.status is NeedDict ==> r.consumed > 0 || r.written > 0,
        inflate_calls(*final(state)) == Some(
            inflate_calls(*old(state)).unwrap().push((input@, old(buf)@.len())),
        ),
        (r.consumed as nat, final(buf)@.take(r.written as int), r.status) == inflate_result(
            inflate_calls(*old(state)).unwrap(),
            input@,
            old(buf)@.len(),
            usize::BITS,
        ),
{
    let r = inflate(state, input, buf, MZFlush::None);
    let status = match r.status {
        Ok(MZStatus::Ok) => InflateStatus::Progress,
        Ok(MZStatus::StreamEnd) => InflateStatus::StreamEnd,
        Ok(MZStatus::NeedDict) => InflateStatus::NeedDict,
        Err(MZError::ErrNo) => InflateStatus::Failed(InflateFault::ErrNo),
        Err(MZError::Stream) => InflateStatus::Failed(InflateFault::Stream),
        Err(MZError::Data) => InflateStatus::Failed(InflateFault::Data),
        Err(MZError::Mem) => InflateStatus::Failed(InflateFault::Mem),
        Err(MZError::Buf) => InflateStatus::Failed(InflateFault::Buf),
        Err(MZError::Version) => InflateStatus::Failed(InflateFault::Version),
        Err(MZError::Param) => InflateStatus::Failed(InflateFault::Param),
    };
    InflateStep { consumed: r.bytes_consumed, written: r.bytes_written, status }
}

impl InflateFault {
    /// The name of the fault.
    pub open spec fn name(self) -> Seq<char> {
        match self {
            InflateFault::ErrNo => "ErrNo"@,
            InflateFault::Stream => "Stream"@,
            InflateFault::Data => "Data"@,
            InflateFault::Mem => "Mem"@,
            InflateFault::Buf => "Buf"@,
            InflateFault::Version => "Version"@,
            InflateFault::Param => "Param"@,
        }
    }

    fn name_text(self) -> (r: &'static str)
        ensures
            r@ == self.name(),
    {
        match self {
            InflateFault::ErrNo => "ErrNo",
            InflateFault::Stream => "Stream",
            InflateFault::Data => "Data",
            InflateFault::Mem => "Mem",
            InflateFault::Buf => "Buf",
            InflateFault::Version => "Version",
            InflateFault::Param => "Param",
        }
    }
}

/// The failure that a decoder fault is reported as.
pub open spec fn fault_failure(fault: InflateFault, consumed: nat) -> ZipFailure {
    ZipFailure::Inflate(
        "Err("@ + fault.name() + ") after "@ + decimal(consumed) + " bytes"@,
    )
}

/// What one call of the decoder means for the entry `name`, of which `out` has
/// been decoded with that call's `written` bytes included and `left` bytes of
/// input remain: a failure, or whether the entry is complete.
pub open spec fn step_outcome(
    name: Seq<char>,
    cap: u64,
    out_len: nat,
    left: nat,
    step: InflateStep,
) -> Result<bool, ZipFailure> {
    match step.status {
        InflateStatus::Failed(fault) => Err(fault_failure(fault, step.consumed as nat)),
        InflateStatus::StreamEnd => if out_len > cap {
            Err(ZipFailure::EntryTooLarge { name, cap, actual: out_len as u64 })
        } else {
            Ok(true)
        },
        _ => if out_len > cap {
            Err(ZipFailure::EntryTooLarge { name, cap, actual: out_len as u64 })
        } else if left == 0 && step.written == 0 {
            Err(ZipFailure::Inflate("stream ended without StreamEnd marker"@))
        } else {
            Ok(false)
        },
    }
}

/// Takes one call's output, `buf[..step.written]`, into `out`, and tells whether
/// the entry is complete. `left` is what remains of the input after the call.
pub fn take_step(
    entry_name: &str,
    max_bytes: u64,
    out: &mut Vec<u8>,
    buf: &Vec<u8>,
    step: &InflateStep,
    left: usize,
) -> (r: Result<bool, ZipReadError>)
    requires
        step.written <= buf@.len(),
    ensures
        step.status is Failed ==> final(out)@ == old(out)@,
        step.status !is Failed ==> final(out)@ == old(out)@ + buf@.take(step.written as int),
        match step_outcome(
            entry_name@,
            max_bytes,
            old(out)@.len() + step.written as nat,
            left as nat,
            *step,
        ) {
            Ok(done) => r == Ok::<bool, ZipReadError>(done),
            Err(e) => r is Err && r->Err_0@ == e,
        },
{
    if let InflateStatus::Failed(fault) = step.status {
        let mut message = String::new();
        message.append("Err(");
        message.append(fault.name_text());
        message.append(") after ");
        message.append(decimal_text(step.consumed as u64).as_str());
        message.append(" bytes");
        assert(message@ =~= "Err("@ + fault.name() + ") after "@ + decimal(step.consumed as nat)
            + " bytes"@);
        return Err(ZipReadError::Inflate(message));
    }
    let ghost before = out@;
    out.extend_from_slice(slice_subrange(buf.as_slice(), 0, step.written));
    assert(out@ =~= before + buf@.take(step.written as int));
    if out.len() as u64 > max_bytes {
        return Err(
            ZipReadError::EntryTooLarge {
                name: entry_name.to_owned(),
                cap: max_bytes,
                actual: out.len() as u64,
            },
        );
    }
    match step.status {
        InflateStatus::StreamEnd => Ok(true),
        _ => {
            if left == 0 && step.written == 0 {
                Err(ZipReadError::Inflate("stream ended without StreamEnd marker".to_owned()))
            } else {
                Ok(false)
            }
        },
    }
}

/// The data of the entry `name` that a decoder gives for `input`, once it has
/// served `calls` and given `out`.
pub open spec fn inflated_from(
    name: Seq<char>,
    cap: u64,
    calls: Seq<(Seq<u8>, nat)>,
    input: Seq<u8>,
    out: Seq<u8>,
) -> Result<Seq<u8>, ZipFailure>
    decreases input.len() + cap - out.len(),
{
    let (consumed, bytes, status) = inflate_result(calls, input, INFLATE_ROOM as nat, usize::BITS);
    let step = InflateStep { consumed: consumed as usize, written: bytes.len() as usize, status };
    let now = out + bytes;
    match step_outcome(name, cap, now.len(), (input.len() - consumed) as nat, step) {
        Err(e) => Err(e),
        Ok(true) => Ok(now),
        Ok(false) => if consumed <= input.len() && consumed + bytes.len() > 0 && now.len() <= cap {
            inflated_from(
                name,
                cap,
                calls.push((input, INFLATE_ROOM as nat)),
                input.skip(consumed as int),
                now,
            )
        } else {
            // A call that neither fails nor ends the data moves on, within its input.
            arbitrary()
        },
    }
}

/// The data of the entry `name` that a fresh decoder gives for `compressed`,
/// unless it fails or gives more than `cap` bytes.
pub open spec fn inflated(name: Seq<char>, cap: u64, compressed: Seq<u8>) -> Result<
    Seq<u8>,
    ZipFailure,
> {
    inflated_from(name, cap, seq![], compressed, seq![])
}

/// Decodes `compressed`, the data of the entry `entry_name`.
pub fn inflate_entry(compressed: &[u8], max_bytes: u64, entry_name: &str) -> (r: Result<
    Vec<u8>,
    ZipReadError,
>)
    ensures
        match inflated(entry_name@, max_bytes, compressed@) {
            Ok(data) => r is Ok && r->Ok_0@ == data,
            Err(e) => r is Err && r->Err_0@ == e,
        },
        r is Ok ==> r->Ok_0@.len() <= max_bytes,
{
    let mut out: Vec<u8> = Vec::new();
    let mut decoder = new_raw_decoder();
    let mut buf: Vec<u8> = vec![0u8; INFLATE_ROOM];
    let mut at: usize = 0;
    let ghost mut calls: Seq<(Seq<u8>, nat)> = seq![];
    assert(compressed@.skip(0) =~= compressed@);
    assert(out@ =~= seq![]);
    loop
        invariant
            at <= compressed@.len(),
            buf@.len() == INFLATE_ROOM,
            out@.len() <= max_bytes,
            inflate_calls(*decoder) == Some(calls),
            inflated_from(entry_name@, max_bytes, calls, compressed@.skip(at as int), out@)
                == inflated(entry_name@, max_bytes, compressed@),
        decreases compressed@.len() - at + max_bytes - out@.len(),
    {
        let input = slice_subrange(compressed, at, compressed.len());
        assert(input@ =~= compressed@.skip(at as int));
        let step = inflate_step(&mut decoder, input, &mut buf);
        let ghost before = out@;
        let left: usize = input.len() - step.consumed;
        match take_step(entry_name, max_bytes, &mut out, &buf, &step, left) {
            Err(e) => {
                return Err(e);
            },
            Ok(true) => {
                return Ok(out);
            },
            Ok(false) => {},
        }
        proof {
            calls = calls.push((input@, INFLATE_ROOM as nat));
            assert(input@.skip(step.consumed as int) =~= compressed@.skip(at + step.consumed));
        }
        at = at + step.consumed;
    }
}

} // verus!
