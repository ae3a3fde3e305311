//! The error taxonomy, the additive backtrace attached to it, and how both
//! are rendered as text.
use vstd::prelude::*;
use vstd::string::StringExecFns;
use crate::io::IoError;

verus! {

/// A caller's own error, carried without the core knowing its type: a kind
/// name tells the types apart, and the payload is its message.
#[derive(Debug)]
pub struct CustomError {
    pub kind: String,
    pub message: String,
}

impl CustomError {
    pub fn new(kind: &str, message: &str) -> (r: CustomError)
        ensures
            r.kind@ == kind@,
            r.message@ == message@,
    {
        CustomError { kind: String::from_str(kind), message: String::from_str(message) }
    }

    /// Whether this error is of the kind named `kind`.
    pub fn is(&self, kind: &str) -> (r: bool)
        ensures
            r == (self.kind@ == kind@),
    {
        let k = String::from_str(kind);
        self.kind == k
    }

    /// The payload when the kind matches; otherwise the error itself, unchanged.
    pub fn downcast(self, kind: &str) -> (r: Result<String, CustomError>)
        ensures
            self.kind@ == kind@ ==> r == Ok::<String, CustomError>(self.message),
            self.kind@ != kind@ ==> r == Err::<String, CustomError>(self),
    {
        if self.is(kind) {
            Ok(self.message)
        } else {
            Err(self)
        }
    }

    /// The payload, when the kind matches.
    pub fn downcast_ref(&self, kind: &str) -> (r: Option<&String>)
        ensures
            self.kind@ == kind@ ==> r == Some(&self.message),
            self.kind@ != kind@ ==> r is None,
    {
        if self.is(kind) {
            Some(&self.message)
        } else {
            None
        }
    }

    /// The payload, to change in place, when the kind matches.
    pub fn downcast_mut(&mut self, kind: &str) -> (r: Option<&mut String>)
        ensures
            old(self).kind@ == kind@ ==> (r matches Some(m) && *m == old(self).message && final(self).kind
                == old(self).kind && final(self).message == *final(m)),
            old(self).kind@ != kind@ ==> (r is None && *final(self) == *old(self)),
    {
        if self.is(kind) {
            Some(&mut self.message)
        } else {
            None
        }
    }
}

/// One frame of context on a failure.
#[derive(Debug)]
pub enum BacktraceFrame {
    /// A message with the place in the source it was attached at.
    Full { code: Option<String>, message: String, file: String, line: u32 },
    /// A plain message.
    Message(String),
    /// An error kept as context of another one.
    Custom(Box<Error>),
}

/// An error with the frames of context added to it, in the order they were
/// added.
#[derive(Debug)]
pub struct Backtrace {
    pub error: Box<Error>,
    pub frames: Vec<BacktraceFrame>,
}

impl Backtrace {
    pub fn new(error: Error, frames: Vec<BacktraceFrame>) -> (r: Backtrace)
        ensures
            *r.error == error,
            r.frames == frames,
    {
        Backtrace { error: Box::new(error), frames }
    }
}

/// Every way a decode or an encode can fail.
#[derive(Debug)]
pub enum Error {
    /// A fixed constant did not match: where, and what was there instead.
    BadMagic { pos: u64, found: String },
    /// A caller's condition did not hold.
    AssertFail { pos: u64, message: String },
    /// The stream failed.
    Io(IoError),
    /// A caller's own error.
    Custom { pos: u64, err: CustomError },
    /// No alternative decoded, and no detail was kept.
    NoVariantMatch { pos: u64 },
    /// No alternative decoded: each one's name and error.
    EnumErrors { pos: u64, variant_errors: Vec<(String, Error)> },
    /// An error with frames of context.
    Backtrace(Backtrace),
}

pub type BinResult<T> = Result<T, Error>;

impl Error {
    /// A stream failure as an error of this library.
    pub fn from_io(err: IoError) -> (r: Error)
        ensures
            r == Error::Io(err),
    {
        Error::Io(err)
    }
}

impl From<IoError> for Error {
    /// A stream failure, kept as it is.
    fn from(err: IoError) -> (r: Error) {
        Error::Io(err)
    }
}

impl vstd::std_specs::convert::FromSpecImpl<IoError> for Error {
    open spec fn obeys_from_spec() -> bool {
        true
    }

    open spec fn from_spec(err: IoError) -> Error {
        Error::Io(err)
    }
}

/// `before` with one more frame: the frames it had and its inner error are
/// kept, and `frame` holds of the new last frame.
pub open spec fn gains_frame(before: Error, after: Error, frame: spec_fn(BacktraceFrame) -> bool) -> bool {
    &&& after is Backtrace
    &&& after->Backtrace_0.frames@.len() > 0
    &&& frame(after->Backtrace_0.frames@.last())
    &&& match before {
        Error::Backtrace(b) => {
            &&& after->Backtrace_0.error == b.error
            &&& after->Backtrace_0.frames@.drop_last() == b.frames@
        },
        _ => {
            &&& *after->Backtrace_0.error == before
            &&& after->Backtrace_0.frames@.len() == 1
        },
    }
}

/// The frame that `with_message` adds.
pub open spec fn is_message_frame(f: BacktraceFrame, message: Seq<char>, file: Seq<char>, line: u32) -> bool {
    f matches BacktraceFrame::Full { code, message: m, file: fl, line: ln } && code is None && m@ == message
        && fl@ == file && ln == line
}

/// Adding context to failures.
pub trait ContextExt: Sized {
    /// `after` is `self` with one more frame of which `frame` holds; a
    /// success stays as it is.
    spec fn framed(self, after: Self, frame: spec_fn(BacktraceFrame) -> bool) -> bool;

    /// Appends `frame` to the error's frames.
    fn with_context(self, frame: BacktraceFrame) -> (r: Self)
        ensures
            self.framed(r, |f: BacktraceFrame| f == frame),
    ;

    /// Appends a frame with `message` and the place `file`:`line`.
    fn with_message(self, message: &str, file: &str, line: u32) -> (r: Self)
        ensures
            self.framed(r, |f: BacktraceFrame| is_message_frame(f, message@, file@, line)),
    ;
}

impl ContextExt for Error {
    open spec fn framed(self, after: Self, frame: spec_fn(BacktraceFrame) -> bool) -> bool {
        gains_frame(self, after, frame)
    }

    fn with_context(self, frame: BacktraceFrame) -> (r: Self) {
        match self {
            Error::Backtrace(mut backtrace) => {
                backtrace.frames.push(frame);
                assert(backtrace.frames@.drop_last() =~= old_frames_of(self));
                Error::Backtrace(backtrace)
            },
            error => {
                let frames = vec![frame];
                Error::Backtrace(Backtrace::new(error, frames))
            },
        }
    }

    fn with_message(self, message: &str, file: &str, line: u32) -> (r: Self) {
        let frame = BacktraceFrame::Full {
            code: None,
            message: String::from_str(message),
            file: String::from_str(file),
            line,
        };
        self.with_context(frame)
    }
}

/// The frames of `e` when it is a backtrace.
pub open spec fn old_frames_of(e: Error) -> Seq<BacktraceFrame> {
    match e {
        Error::Backtrace(b) => b.frames@,
        _ => Seq::empty(),
    }
}

impl<T> ContextExt for Result<T, Error> {
    open spec fn framed(self, after: Self, frame: spec_fn(BacktraceFrame) -> bool) -> bool {
        match self {
            Ok(v) => after == Ok::<T, Error>(v),
            Err(e) => after matches Err(e2) && gains_frame(e, e2, frame),
        }
    }

    fn with_context(self, frame: BacktraceFrame) -> (r: Self) {
        match self {
            Ok(v) => Ok(v),
            Err(e) => Err(e.with_context(frame)),
        }
    }

    fn with_message(self, message: &str, file: &str, line: u32) -> (r: Self) {
        match self {
            Ok(v) => Ok(v),
            Err(e) => Err(e.with_message(message, file, line)),
        }
    }
}

/// A hexadecimal digit, lower case.
pub open spec fn hex_digit(d: nat) -> char {
    if d < 10 {
        (48 + d) as char
    } else {
        (87 + d) as char
    }
}

/// `n` in lower-case hexadecimal, without a prefix.
pub open spec fn hex_text(n: nat) -> Seq<char>
    decreases n,
{
    if n < 16 {
        seq![hex_digit(n)]
    } else {
        hex_text(n / 16).push(hex_digit(n % 16))
    }
}

/// `n` in decimal.
pub open spec fn decimal_text(n: nat) -> Seq<char>
    decreases n,
{
    if n < 10 {
        seq![(48 + n) as char]
    } else {
        decimal_text(n / 10).push((48 + n % 10) as char)
    }
}

/// Relies on std's `{:x}` formatting of a `u64`: its lower-case hexadecimal
/// digits, without a prefix or leading zeros.
#[verifier::external_body]
fn format_hex(n: u64) -> (r: String)
    ensures
        r@ == hex_text(n as nat),
{
    format!("{:x}", n)
}

/// Relies on std's `{}` formatting of a `u128`: its decimal digits,
/// without leading zeros.
#[verifier::external_body]
pub(crate) fn format_decimal(n: u128) -> (r: String)
    ensures
        r@ == decimal_text(n as nat),
{
    format!("{}", n)
}

/// " at 0x" and the position in hexadecimal.
pub open spec fn at_text(pos: u64) -> Seq<char> {
    " at 0x"@ + hex_text(pos as nat)
}

/// How an error reads.
pub open spec fn error_text(e: Error) -> Seq<char>
    decreases e,
{
    match e {
        Error::BadMagic { pos, found } => "bad magic"@ + at_text(pos) + ": "@ + found@,
        Error::AssertFail { pos, message } => message@ + at_text(pos),
        Error::Io(err) => err.message@,
        Error::Custom { pos, err } => err.message@ + at_text(pos),
        Error::NoVariantMatch { pos } => "no variants matched"@ + at_text(pos),
        Error::EnumErrors { pos, variant_errors } => "no variants matched"@ + at_text(pos) + ":"@
            + variants_text(variant_errors@),
        Error::Backtrace(bt) => frames_text(bt.frames@) + error_text(*bt.error),
    }
}

/// One indented line per failed alternative: its name and its error.
pub open spec fn variants_text(v: Seq<(String, Error)>) -> Seq<char>
    decreases v,
{
    if v.len() == 0 {
        Seq::empty()
    } else {
        variants_text(v.drop_last()) + "\n  "@ + v.last().0@ + ": "@ + error_text(v.last().1)
    }
}

/// Each frame on a line of its own, in the order they were added.
pub open spec fn frames_text(f: Seq<BacktraceFrame>) -> Seq<char>
    decreases f,
{
    if f.len() == 0 {
        Seq::empty()
    } else {
        frames_text(f.drop_last()) + frame_text(f.last()) + "\n"@
    }
}

/// How one frame reads.
pub open spec fn frame_text(f: BacktraceFrame) -> Seq<char>
    decreases f,
{
    match f {
        BacktraceFrame::Full { message, file, line, .. } => message@ + " at "@ + file@ + ":"@
            + decimal_text(line as nat),
        BacktraceFrame::Message(m) => m@,
        BacktraceFrame::Custom(e) => error_text(*e),
    }
}

fn at_string(pos: u64) -> (r: String)
    ensures
        r@ == at_text(pos),
{
    let mut s = String::from_str(" at 0x");
    let h = format_hex(pos);
    s.append(h.as_str());
    s
}

impl BacktraceFrame {
    /// How this frame reads.
    pub fn text(&self) -> (r: String)
        ensures
            r@ == frame_text(*self),
        decreases self,
    {
        match self {
            BacktraceFrame::Full { message, file, line, .. } => {
                let mut s = message.clone();
                s.append(" at ");
                s.append(file.as_str());
                s.append(":");
                let d = format_decimal(*line as u128);
                s.append(d.as_str());
                s
            },
            BacktraceFrame::Message(m) => m.clone(),
            BacktraceFrame::Custom(e) => e.text(),
        }
    }
}

impl Error {
    /// How this error reads: positions in hexadecimal; for failed
    /// alternatives a header and one indented line each; for a backtrace its
    /// frames in the order they were added, then the inner error.
    pub fn text(&self) -> (r: String)
        ensures
            r@ == error_text(*self),
        decreases self,
    {
        match self {
            Error::BadMagic { pos, found } => {
                let mut s = String::from_str("bad magic");
                let a = at_string(*pos);
                s.append(a.as_str());
                s.append(": ");
                s.append(found.as_str());
                s
            },
            Error::AssertFail { pos, message } => {
                let mut s = message.clone();
                let a = at_string(*pos);
                s.append(a.as_str());
                s
            },
            Error::Io(err) => err.message.clone(),
            Error::Custom { pos, err } => {
                let mut s = err.message.clone();
                let a = at_string(*pos);
                s.append(a.as_str());
                s
            },
            Error::NoVariantMatch { pos } => {
                let mut s = String::from_str("no variants matched");
                let a = at_string(*pos);
                s.append(a.as_str());
                s
            },
            Error::EnumErrors { pos, variant_errors } => {
                let mut s = String::from_str("no variants matched");
                let a = at_string(*pos);
                s.append(a.as_str());
                s.append(":");
                let ghost head = s@;
                let mut i: usize = 0;
                while i < variant_errors.len()
                    invariant
                        i <= variant_errors@.len(),
                        *self is EnumErrors,
                        *variant_errors == (*self)->EnumErrors_variant_errors,
                        s@ == head + variants_text(variant_errors@.take(i as int)),
                    decreases variant_errors@.len() - i,
                {
                    let entry = &variant_errors[i];
                    proof {
                        let v = (*self)->EnumErrors_variant_errors;
                        assert(decreases_to!(*self => (*self)->EnumErrors_variant_errors));
                        assert(decreases_to!(v => v@));
                        assert(decreases_to!(v@ => v@[i as int]));
                        assert(decreases_to!(v@[i as int] => v@[i as int].1));
                    }
                    s.append("\n  ");
                    s.append(entry.0.as_str());
                    s.append(": ");
                    let t = entry.1.text();
                    s.append(t.as_str());
                    proof {
                        let v = variant_errors@.take(i + 1);
                        assert(v.drop_last() =~= variant_errors@.take(i as int));
                    }
                    i = i + 1;
                }
                assert(variant_errors@.take(variant_errors@.len() as int) =~= variant_errors@);
                s
            },
            Error::Backtrace(bt) => {
                let mut s = String::new();
                let mut i: usize = 0;
                while i < bt.frames.len()
                    invariant
                        i <= bt.frames@.len(),
                        *self is Backtrace,
                        *bt == (*self)->Backtrace_0,
                        s@ == frames_text(bt.frames@.take(i as int)),
                    decreases bt.frames@.len() - i,
                {
                    proof {
                        let b = (*self)->Backtrace_0;
                        assert(decreases_to!(*self => (*self)->Backtrace_0));
                        assert(decreases_to!(b => b.frames));
                        assert(decreases_to!(b.frames => b.frames@));
                        assert(decreases_to!(b.frames@ => b.frames@[i as int]));
                    }
                    let t = bt.frames[i].text();
                    s.append(t.as_str());
                    s.append("\n");
                    proof {
                        let f = bt.frames@.take(i + 1);
                        assert(f.drop_last() =~= bt.frames@.take(i as int));
                    }
                    i = i + 1;
                }
                assert(bt.frames@.take(bt.frames@.len() as int) =~= bt.frames@);
                let inner = bt.error.text();
                s.append(inner.as_str());
                s
            },
        }
    }
}

/// How a value shows itself in an error message: integers as their decimal
/// digits, with a minus sign when negative.
pub trait ValueText {
    /// The text of this value.
    spec fn spec_text(&self) -> Seq<char>;

    fn text(&self) -> (r: String)
        ensures
            r@ == self.spec_text(),
    ;
}

/// The decimal text of `v`, with a minus sign when negative.
pub open spec fn signed_text(v: int) -> Seq<char> {
    if v < 0 {
        seq!['-'] + decimal_text((-v) as nat)
    } else {
        decimal_text(v as nat)
    }
}

impl ValueText for u8 {
    open spec fn spec_text(&self) -> Seq<char> {
        decimal_text(*self as nat)
    }

    fn text(&self) -> (r: String) {
        format_decimal(*self as u128)
    }
}

impl ValueText for u16 {
    open spec fn spec_text(&self) -> Seq<char> {
        decimal_text(*self as nat)
    }

    fn text(&self) -> (r: String) {
        format_decimal(*self as u128)
    }
}

impl ValueText for u32 {
    open spec fn spec_text(&self) -> Seq<char> {
        decimal_text(*self as nat)
    }

    fn text(&self) -> (r: String) {
        format_decimal(*self as u128)
    }
}

impl ValueText for u64 {
    open spec fn spec_text(&self) -> Seq<char> {
        decimal_text(*self as nat)
    }

    fn text(&self) -> (r: String) {
        format_decimal(*self as u128)
    }
}

impl ValueText for u128 {
    open spec fn spec_text(&self) -> Seq<char> {
        decimal_text(*self as nat)
    }

    fn text(&self) -> (r: String) {
        format_decimal(*self as u128)
    }
}

impl ValueText for i8 {
    open spec fn spec_text(&self) -> Seq<char> {
        signed_text(*self as int)
    }

    fn text(&self) -> (r: String) {
        if *self < 0 {
            let m: u128 = (-(*self + 1)) as u128 + 1;
            let mut s = String::from_str("-");
            let d = format_decimal(m);
            s.append(d.as_str());
            proof {
                reveal_strlit("-");
            }
            s
        } else {
            format_decimal(*self as u128)
        }
    }
}

impl ValueText for i16 {
    open spec fn spec_text(&self) -> Seq<char> {
        signed_text(*self as int)
    }

    fn text(&self) -> (r: String) {
        if *self < 0 {
            let m: u128 = (-(*self + 1)) as u128 + 1;
            let mut s = String::from_str("-");
            let d = format_decimal(m);
            s.append(d.as_str());
            proof {
                reveal_strlit("-");
            }
            s
        } else {
            format_decimal(*self as u128)
        }
    }
}

impl ValueText for i32 {
    open spec fn spec_text(&self) -> Seq<char> {
        signed_text(*self as int)
    }

    fn text(&self) -> (r: String) {
        if *self < 0 {
            let m: u128 = (-(*self + 1)) as u128 + 1;
            let mut s = String::from_str("-");
            let d = format_decimal(m);
            s.append(d.as_str());
            proof {
                reveal_strlit("-");
            }
            s
        } else {
            format_decimal(*self as u128)
        }
    }
}

impl ValueText for i64 {
    open spec fn spec_text(&self) -> Seq<char> {
        signed_text(*self as int)
    }

    fn text(&self) -> (r: String) {
        if *self < 0 {
            let m: u128 = (-(*self + 1)) as u128 + 1;
            let mut s = String::from_str("-");
            let d = format_decimal(m);
            s.append(d.as_str());
            proof {
                reveal_strlit("-");
            }
            s
        } else {
            format_decimal(*self as u128)
        }
    }
}

impl ValueText for i128 {
    open spec fn spec_text(&self) -> Seq<char> {
        signed_text(*self as int)
    }

    fn text(&self) -> (r: String) {
        if *self < 0 {
            let m: u128 = (-(*self + 1)) as u128 + 1;
            let mut s = String::from_str("-");
            let d = format_decimal(m);
            s.append(d.as_str());
            proof {
                reveal_strlit("-");
            }
            s
        } else {
            format_decimal(*self as u128)
        }
    }
}

} // verus!
