//! Helpers that codecs and generated format code share: the position-restore
//! protocol, assertions, padding, and argument defaults.
use vstd::prelude::*;
use vstd::string::StringExecFns;
use crate::endian::Endian;
use crate::error::{Backtrace, BacktraceFrame, BinResult, CustomError, Error, ValueText};
use crate::io::{overwrite, remaining, IoError, IoErrorKind, Read, Seek, SeekFrom, Write};
use crate::read::{ended, BinRead};
use crate::write::BinWrite;
use vstd::std_specs::cmp::PartialEqSpec;

verus! {

/// Marks an arguments type that has a value to use when a call gives none.
pub trait MissingArgsDirective {
}

/// An arguments type with a value to use when a call gives none.
pub trait Required: MissingArgsDirective + Sized {
    /// The value used when a call gives none.
    spec fn spec_args() -> Self;

    fn args() -> (r: Self)
        ensures
            r == Self::spec_args(),
    ;
}

impl MissingArgsDirective for () {
}

impl Required for () {
    open spec fn spec_args() -> Self {
        ()
    }

    fn args() -> (r: Self) {
        ()
    }
}

impl MissingArgsDirective for usize {
}

impl Required for usize {
    open spec fn spec_args() -> Self {
        0
    }

    fn args() -> (r: Self) {
        0
    }
}

/// How a failed assertion builds its error: from a message, or as a
/// caller's own error.
pub enum AssertErrorFn<M, E> {
    Message(M),
    Error(E),
}

/// Succeeds when `test` holds; otherwise fails at `pos` with the error
/// that `error_fn` builds.
pub fn assert_condition<MsgFn, ErrorFn>(
    test: bool,
    pos: u64,
    error_fn: AssertErrorFn<MsgFn, ErrorFn>,
) -> (r: BinResult<()>)
    where
        MsgFn: Fn() -> String,
        ErrorFn: Fn() -> CustomError,
    requires
        match error_fn {
            AssertErrorFn::Message(f) => f.requires(()),
            AssertErrorFn::Error(f) => f.requires(()),
        },
    ensures
        test ==> r is Ok,
        !test ==> match error_fn {
            AssertErrorFn::Message(f) => r matches Err(Error::AssertFail { pos: p, message }) && p == pos
                && f.ensures((), message),
            AssertErrorFn::Error(f) => r matches Err(Error::Custom { pos: p, err }) && p == pos && f.ensures(
                (),
                err,
            ),
        },
{
    if test {
        Ok(())
    } else {
        Err(
            match error_fn {
                AssertErrorFn::Message(error_fn) => Error::AssertFail { pos, message: error_fn() },
                AssertErrorFn::Error(error_fn) => Error::Custom { pos, err: error_fn() },
            },
        )
    }
}

/// Hands a closure back unchanged; fixes its type for inference.
pub fn coerce_fn<R, T, F>(f: F) -> (r: F)
    where
        F: FnMut(T) -> R,
    ensures
        r == f,
{
    f
}

/// The error for a stream that ended too soon.
pub fn not_enough_bytes() -> (r: Error)
    ensures
        r matches Error::Io(e) && e.kind == IoErrorKind::UnexpectedEof && e.message@
            == "not enough bytes in reader"@,
{
    Error::Io(IoError::new(IoErrorKind::UnexpectedEof, "not enough bytes in reader"))
}

/// Hands a parse function back unchanged; fixes its type for inference.
pub fn parse_fn_type_hint<Ret, ParseFn, R, Args>(f: ParseFn) -> (r: ParseFn)
    where
        R: Read + Seek,
        ParseFn: FnOnce(&mut R, Endian, Args) -> BinResult<Ret>,
    ensures
        r == f,
{
    f
}

/// Hands arguments back unchanged; ties their type to a parse function's.
pub fn parse_function_args_type_hint<R, Res, Args, F>(_f: &F, a: Args) -> (r: Args)
    where
        R: Read + Seek,
        F: FnOnce(&mut R, Endian, Args) -> BinResult<Res>,
    ensures
        r == a,
{
    a
}

/// Hands arguments back unchanged; ties their type to a write function's.
pub fn write_function_args_type_hint<T, W, Args, F>(_f: &F, a: Args) -> (r: Args)
    where
        W: Write + Seek,
        F: FnOnce(&T, &mut W, Endian, Args) -> BinResult<()>,
    ensures
        r == a,
{
    a
}

/// Hands arguments back unchanged; ties their type to what the input of a
/// mapping function decodes with.
pub fn map_args_type_hint<Input, Output, MapFn, Args>(_f: &MapFn, args: Args) -> (r: Args)
    where
        MapFn: FnOnce(Input) -> Output,
        Input: BinRead<Args = Args>,
    ensures
        r == args,
{
    args
}

/// Hands arguments back unchanged; ties their type to what the output of a
/// mapping function encodes with.
pub fn write_map_args_type_hint<Input, Output, MapFn, Args>(_f: &MapFn, args: Args) -> (r: Args)
    where
        MapFn: FnOnce(Input) -> Output,
        Output: BinWrite<Args = Args>,
    ensures
        r == args,
{
    args
}

/// Hands a stream-mapping closure back unchanged; fixes its type.
pub fn map_reader_type_hint<'a, Reader, MapFn, Output>(x: MapFn) -> (r: MapFn)
    where
        Reader: Read + Seek + 'a,
        MapFn: Fn(&'a mut Reader) -> Output,
        Output: Read + Seek + 'a,
    ensures
        r == x,
{
    x
}

/// Hands a stream-mapping closure back unchanged; fixes its type.
pub fn map_writer_type_hint<'a, Writer, MapFn, Output>(x: MapFn) -> (r: MapFn)
    where
        Writer: Write + Seek + 'a,
        MapFn: Fn(&'a mut Writer) -> Output,
        Output: Write + Seek + 'a,
    ensures
        r == x,
{
    x
}

/// Hands a write function back unchanged; fixes its type for inference.
pub fn write_fn_type_hint<T, WriterFn, Writer, Args>(x: WriterFn) -> (r: WriterFn)
    where
        Writer: Write + Seek,
        WriterFn: FnOnce(&T, &mut Writer, Endian, Args) -> BinResult<()>,
    ensures
        r == x,
{
    x
}

/// The text of the frame that the restore protocol adds.
pub open spec fn rewind_reason() -> Seq<char> {
    "rewinding after a failure"@
}

/// `r` is what a failed restore makes of `error`: a backtrace whose inner
/// error is the failed seek `seek_error`, whose first frame is the rewinding
/// message, and whose next frame is `error` (or, when `error` was already a
/// backtrace, its inner error, followed by its own frames).
pub open spec fn rewind_failure(r: Error, error: Error, seek_error: Error) -> bool {
    &&& r is Backtrace
    &&& *r->Backtrace_0.error == seek_error
    &&& r->Backtrace_0.frames@.len() >= 2
    &&& r->Backtrace_0.frames@[0] matches BacktraceFrame::Message(m) && m@ == rewind_reason()
    &&& r->Backtrace_0.frames@[1] matches BacktraceFrame::Custom(e) && match error {
        Error::Backtrace(bt) => *e == *bt.error && r->Backtrace_0.frames@.skip(2) == bt.frames@,
        _ => *e == error && r->Backtrace_0.frames@.len() == 2,
    }
}

/// Combines a decode failure with the failure of the seek meant to undo it,
/// so that neither is lost.
pub fn restore_position_err(error: Error, seek_error: Error) -> (r: Error)
    ensures
        rewind_failure(r, error, seek_error),
{
    let reason = BacktraceFrame::Message(String::from_str("rewinding after a failure"));
    match error {
        Error::Backtrace(bt) => {
            let Backtrace { error: inner, frames: old_frames } = bt;
            let mut frames: Vec<BacktraceFrame> = Vec::new();
            frames.push(reason);
            frames.push(BacktraceFrame::Custom(inner));
            let mut rest = old_frames;
            frames.append(&mut rest);
            assert(frames@.skip(2) =~= old_frames@);
            Error::Backtrace(Backtrace::new(seek_error, frames))
        },
        error => {
            let frames = vec![reason, BacktraceFrame::Custom(Box::new(error))];
            Error::Backtrace(Backtrace::new(seek_error, frames))
        },
    }
}

/// Seeks `stream` back to `pos` after `error`: when the seek succeeds the
/// error comes back as it was and the cursor is at `pos`; when it fails the
/// cursor has not moved and both failures come back together.
pub fn restore_position<S: Seek>(stream: &mut S, pos: u64, error: Error) -> (r: Error)
    ensures
        final(stream).content() == old(stream).content(),
        final(stream).faultless() == old(stream).faultless(),
        (final(stream).offset() == pos && r == error) || (final(stream).offset() == old(stream).offset()
            && (*r->Backtrace_0.error) is Io && rewind_failure(r, error, *r->Backtrace_0.error)),
        old(stream).faultless() ==> final(stream).offset() == pos && r == error,
{
    match stream.seek(SeekFrom::Start(pos)) {
        Ok(_) => error,
        Err(seek_error) => restore_position_err(error, Error::Io(seek_error)),
    }
}

/// As `restore_position`, for a caller that goes on to try another
/// alternative: the decode error on success, the combined error otherwise.
pub fn restore_position_variant<S: Seek>(stream: &mut S, pos: u64, error: Error) -> (r: BinResult<Error>)
    ensures
        final(stream).content() == old(stream).content(),
        final(stream).faultless() == old(stream).faultless(),
        r matches Ok(e) ==> final(stream).offset() == pos && e == error,
        r matches Err(e) ==> final(stream).offset() == old(stream).offset() && (*e->Backtrace_0.error) is Io
            && rewind_failure(e, error, *e->Backtrace_0.error),
        old(stream).faultless() ==> r is Ok,
{
    match stream.seek(SeekFrom::Start(pos)) {
        Ok(_) => Ok(error),
        Err(seek_error) => Err(restore_position_err(error, Error::Io(seek_error))),
    }
}

/// `n` zero bytes.
pub open spec fn zeros(n: nat) -> Seq<u8> {
    Seq::new(n, |i: int| 0u8)
}

/// Writes `count` zero bytes at the cursor, a small buffer of zeros at a time.
pub fn write_zeroes<W: Write>(writer: &mut W, count: u64) -> (r: BinResult<()>)
    ensures
        final(writer).faultless() == old(writer).faultless(),
        final(writer).restarts() == old(writer).restarts(),
        !old(writer).restarts() ==> (r is Ok ==> {
            &&& final(writer).content() == overwrite(old(writer).content(), old(writer).offset(), zeros(count as nat))
            &&& final(writer).offset() == old(writer).offset() + count
        }),
        count == 0 ==> r is Ok && final(writer).content() == old(writer).content() && final(writer).offset()
            == old(writer).offset(),
        old(writer).faultless() && !old(writer).restarts() && old(writer).offset() + count <= usize::MAX
            ==> r is Ok,
{
    let buf_size: u64 = 0x20;
    let zeroes: Vec<u8> = vec![0u8; 0x20];
    if count <= buf_size {
        let part = vstd::slice::slice_subrange(zeroes.as_slice(), 0, count as usize);
        assert(part@ =~= zeros(count as nat));
        match writer.write_all(part) {
            Ok(()) => Ok(()),
            Err(e) => Err(Error::Io(e)),
        }
    } else {
        let full_chunks = count / buf_size;
        let remaining = count % buf_size;
        let mut i: u64 = 0;
        while i < full_chunks
            invariant
                full_chunks == count / 32,
                i <= full_chunks,
                zeroes@ == zeros(32),
                writer.faultless() == old(writer).faultless(),
                writer.restarts() == old(writer).restarts(),
                !old(writer).restarts() ==> writer.content() == overwrite(
                    old(writer).content(),
                    old(writer).offset(),
                    zeros((32 * i) as nat),
                ),
                !old(writer).restarts() ==> writer.offset() == old(writer).offset() + 32 * i,
            decreases full_chunks - i,
        {
            match writer.write_all(zeroes.as_slice()) {
                Ok(()) => {},
                Err(e) => {
                    return Err(Error::Io(e));
                },
            }
            proof {
                crate::io::lemma_overwrite_concat(
                    old(writer).content(),
                    old(writer).offset(),
                    zeros((32 * i) as nat),
                    zeros(32),
                );
                assert(zeros((32 * i) as nat) + zeros(32) =~= zeros((32 * (i + 1)) as nat));
            }
            i = i + 1;
        }
        let part = vstd::slice::slice_subrange(zeroes.as_slice(), 0, remaining as usize);
        match writer.write_all(part) {
            Ok(()) => {},
            Err(e) => {
                return Err(Error::Io(e));
            },
        }
        proof {
            crate::io::lemma_overwrite_concat(
                old(writer).content(),
                old(writer).offset(),
                zeros((32 * full_chunks) as nat),
                part@,
            );
            assert(zeros((32 * full_chunks) as nat) + part@ =~= zeros(count as nat));
        }
        Ok(())
    }
}

/// Checks that the stream holds `expected` at the cursor. On a match the
/// cursor is past it; on a mismatch the error is `BadMagic` with the
/// position and the value found, and the cursor is put back.
pub fn magic<R, B>(reader: &mut R, expected: B, endian: Endian) -> (r: BinResult<()>)
    where
        R: Read + Seek,
        B: BinRead<Args = ()> + PartialEq + ValueText,
    ensures
        final(reader).content() == old(reader).content(),
        r is Ok ==> exists|v: B| #![trigger v.deep_view()] {
            &&& (B::obeys_eq_spec() ==> v.eq_spec(&expected))
            &&& B::spec_read(remaining(old(reader).content(), old(reader).offset()), endian, ()) == Some(
                (v.deep_view(), (final(reader).offset() - old(reader).offset()) as nat),
            )
        },
        old(reader).faultless() ==> match B::spec_read(
            remaining(old(reader).content(), old(reader).offset()),
            endian,
            (),
        ) {
            None => r is Err && (B::fails_only_at_end() ==> (r matches Err(e) && ended(e))),
            Some((w, n)) => exists|v: B| #![trigger v.deep_view()]
                {
                    &&& v.deep_view() == w
                    &&& B::obeys_eq_spec() && v.eq_spec(&expected) ==> r is Ok && final(reader).offset()
                        == old(reader).offset() + n
                    &&& B::obeys_eq_spec() && !v.eq_spec(&expected) ==> (r matches Err(
                        Error::BadMagic { pos, found },
                    ) && pos == old(reader).offset() && found@ == v.spec_text() && final(reader).offset() == old(
                        reader,
                    ).offset())
                },
        },
{
    proof {
        old(reader).lemma_stream_bounds();
    }
    let pos = match reader.stream_position() {
        Ok(p) => p,
        Err(e) => {
            return Err(Error::Io(e));
        },
    };
    let val = B::read_options(reader, endian, &())?;
    if val == expected {
        assert(B::spec_read(remaining(old(reader).content(), old(reader).offset()), endian, ()) == Some(
            (val.deep_view(), (reader.offset() - old(reader).offset()) as nat),
        ));
        Ok(())
    } else {
        let found = val.text();
        let err = restore_position(reader, pos, Error::BadMagic { pos, found });
        Err(err)
    }
}

} // verus!
