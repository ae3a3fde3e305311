//! Null-terminated strings of bytes and of 16-bit units, and how raw text
//! is shown when it may not be valid.
use vstd::prelude::*;
use vstd::string::{StringExecFns, StringSliceAdditionalSpecFns};
use vstd::utf8::{decode_utf8, valid_utf8};
use crate::endian::{bytes_value, lemma_bytes_value_bound, value_bytes, Endian};
use crate::error::{BinResult, Error};
use crate::io::{
    available, lemma_bytes_at_remaining, lemma_overwrite_concat, lemma_remaining_advance, remaining, Read, Seek,
    Write,
};
use crate::read::{after, BinRead};
use crate::write::{spec_write_many, BinWrite, WriteMany};

verus! {

/// A byte string that ends at the first zero byte in the stream; the zero
/// is not part of it.
#[derive(Clone, Debug, PartialEq, Eq, Default)]
pub struct NullString(pub Vec<u8>);

/// A string of 16-bit units that ends at the first zero unit in the stream;
/// the zero is not part of it.
#[derive(Clone, Debug, PartialEq, Eq, Default)]
pub struct NullWideString(pub Vec<u16>);

impl DeepView for NullString {
    type V = Seq<u8>;

    open spec fn deep_view(&self) -> Seq<u8> {
        self.0@
    }
}

impl DeepView for NullWideString {
    type V = Seq<u16>;

    open spec fn deep_view(&self) -> Seq<u16> {
        self.0@
    }
}

/// The bytes before the first zero of `bytes`, and how many bytes reach
/// through that zero; `None` when there is no zero.
pub open spec fn narrow_terminated(bytes: Seq<u8>) -> Option<(Seq<u8>, nat)>
    decreases bytes.len(),
{
    if bytes.len() == 0 {
        None
    } else if bytes[0] == 0 {
        Some((Seq::empty(), 1))
    } else {
        match narrow_terminated(bytes.skip(1)) {
            Some((s, n)) => Some((seq![bytes[0]] + s, n + 1)),
            None => None,
        }
    }
}

/// The units, two bytes each in byte order `e`, before the first zero unit
/// of `bytes`, and how many bytes reach through that zero; `None` when no
/// zero unit comes.
pub open spec fn wide_terminated(bytes: Seq<u8>, e: Endian) -> Option<(Seq<u16>, nat)>
    decreases bytes.len(),
{
    if bytes.len() < 2 {
        None
    } else if bytes_value(bytes.take(2), e) == 0 {
        Some((Seq::empty(), 2))
    } else {
        match wide_terminated(bytes.skip(2), e) {
            Some((s, n)) => Some((seq![bytes_value(bytes.take(2), e) as u16] + s, n + 2)),
            None => None,
        }
    }
}

/// `p` put in front of what `rest` found.
pub open spec fn prepend<T>(p: Seq<T>, unit: nat, rest: Option<(Seq<T>, nat)>) -> Option<(Seq<T>, nat)> {
    match rest {
        Some((s, n)) => Some((p + s, n + unit * p.len())),
        None => None,
    }
}

impl BinRead for NullString {
    type Args = ();

    open spec fn spec_read(bytes: Seq<u8>, endian: Endian, args: ()) -> Option<(Seq<u8>, nat)> {
        narrow_terminated(bytes)
    }

    open spec fn restores_on_failure() -> bool {
        false
    }

    open spec fn fails_only_at_end() -> bool {
        true
    }

    /// Reads bytes until a zero byte.
    fn read_options<R: Read + Seek>(reader: &mut R, endian: Endian, args: &()) -> (r: BinResult<NullString>) {
        assert(!Self::restores_on_failure());
        assert(Self::fails_only_at_end());
        let ghost c = old(reader).content();
        let ghost off = old(reader).offset();
        let ghost rem = remaining(c, off);
        let mut values: Vec<u8> = Vec::new();
        assert(after(rem, 0) =~= rem);
        loop
            invariant
                c == old(reader).content(),
                off == old(reader).offset(),
                rem == remaining(c, off),
                reader.content() == c,
                reader.faultless() == old(reader).faultless(),
                off + values@.len() == reader.offset(),
                values@.len() <= available(c, off),
                narrow_terminated(rem) == prepend(values@, 1, narrow_terminated(after(rem, values@.len()))),
            decreases available(c, reader.offset()),
        {
            let ghost i = values@.len();
            proof {
                lemma_remaining_advance(c, off, i);
                assert(after(rem, i) == remaining(c, off + i));
            }
            let val = u8::read_options(reader, endian, &())?;
            proof {
                let a = after(rem, i);
                lemma_bytes_at_remaining(c, off + i, 1);
                reveal_with_fuel(crate::endian::le_value, 2);
                reveal_with_fuel(crate::endian::be_value, 2);
                assert(a.take(1) =~= seq![a[0]]);
                assert(seq![a[0]].skip(1) =~= Seq::<u8>::empty());
                assert(seq![a[0]].drop_last() =~= Seq::<u8>::empty());
                assert(val == a[0]);
                assert(a.skip(1) =~= after(rem, i + 1));
            }
            if val == 0 {
                proof {
                    assert(values@ + Seq::<u8>::empty() =~= values@);
                }
                return Ok(NullString(values));
            }
            let ghost before = values@;
            values.push(val);
            proof {
                let a = after(rem, i);
                assert(before + (seq![val] + Seq::<u8>::empty()) =~= values@);
                match narrow_terminated(a.skip(1)) {
                    Some((s, n)) => {
                        assert(before + (seq![val] + s) =~= values@ + s);
                    },
                    None => {},
                }
            }
        }
    }
}

impl BinWrite for NullString {
    type Args = ();

    open spec fn spec_write(&self, endian: Endian, args: ()) -> Seq<u8> {
        self.0@ + seq![0u8]
    }

    /// The bytes, then one zero byte.
    fn write_options<W: Write + Seek>(&self, writer: &mut W, endian: Endian, args: &()) -> (r: BinResult<()>) {
        match writer.write_all(self.0.as_slice()) {
            Ok(()) => {},
            Err(e) => {
                return Err(Error::Io(e));
            },
        }
        let zero: Vec<u8> = vec![0u8];
        match writer.write_all(zero.as_slice()) {
            Ok(()) => {},
            Err(e) => {
                return Err(Error::Io(e));
            },
        }
        proof {
            lemma_overwrite_concat(old(writer).content(), old(writer).offset(), self.0@, zero@);
            assert(zero@ =~= seq![0u8]);
        }
        Ok(())
    }
}

impl NullString {
    /// The bytes of `s`.
    pub fn from_text(s: &str) -> (r: NullString)
        ensures
            r.0@ == s.spec_bytes(),
    {
        NullString(vstd::slice::slice_to_vec(s.as_bytes()))
    }

    /// The text of the bytes when they are valid UTF-8.
    pub fn to_utf8(&self) -> (r: Option<String>)
        ensures
            valid_utf8(self.0@) ==> (r matches Some(t) && t@ == decode_utf8(self.0@)),
            !valid_utf8(self.0@) ==> r is None,
    {
        match utf8_check(self.0.as_slice()) {
            Ok(text) => Some(String::from_str(text)),
            Err(_) => None,
        }
    }

    /// The text of the bytes; where they are not valid UTF-8 the
    /// replacement character stands in.
    pub fn text(&self) -> (r: String)
        ensures
            r@ == utf8_lossy(self.0@),
    {
        display_utf8(self.0.as_slice())
    }
}

impl From<NullString> for Vec<u8> {
    /// The bytes, without the terminator.
    fn from(s: NullString) -> (r: Vec<u8>) {
        s.0
    }
}

impl vstd::std_specs::convert::FromSpecImpl<NullString> for Vec<u8> {
    open spec fn obeys_from_spec() -> bool {
        true
    }

    open spec fn from_spec(s: NullString) -> Vec<u8> {
        s.0
    }
}

impl From<NullWideString> for Vec<u16> {
    /// The units, without the terminator.
    fn from(s: NullWideString) -> (r: Vec<u16>) {
        s.0
    }
}

impl vstd::std_specs::convert::FromSpecImpl<NullWideString> for Vec<u16> {
    open spec fn obeys_from_spec() -> bool {
        true
    }

    open spec fn from_spec(s: NullWideString) -> Vec<u16> {
        s.0
    }
}

/// `chars` in UTF-16: one unit for a character below `0x10000`, else a
/// surrogate pair.
pub open spec fn utf16_encode(chars: Seq<char>) -> Seq<u16>
    decreases chars.len(),
{
    if chars.len() == 0 {
        Seq::empty()
    } else {
        let v = chars.last() as u32;
        let units = if v < 0x10000 {
            seq![v as u16]
        } else {
            seq![(0xD800 + (v - 0x10000) / 0x400) as u16, (0xDC00 + (v - 0x10000) % 0x400) as u16]
        };
        utf16_encode(chars.drop_last()) + units
    }
}

/// Relies on `str::encode_utf16`: the UTF-16 units of the text, in order.
#[verifier::external_body]
fn utf16_units(s: &str) -> (r: Vec<u16>)
    ensures
        r@ == utf16_encode(s@),
{
    s.encode_utf16().collect()
}

impl NullWideString {
    /// The UTF-16 units of `s`.
    pub fn from_text(s: &str) -> (r: NullWideString)
        ensures
            r.0@ == utf16_encode(s@),
    {
        NullWideString(utf16_units(s))
    }
}

impl BinRead for NullWideString {
    type Args = ();

    open spec fn spec_read(bytes: Seq<u8>, endian: Endian, args: ()) -> Option<(Seq<u16>, nat)> {
        wide_terminated(bytes, endian)
    }

    open spec fn restores_on_failure() -> bool {
        false
    }

    open spec fn fails_only_at_end() -> bool {
        true
    }

    /// Reads 16-bit units in the call's byte order until a zero unit.
    fn read_options<R: Read + Seek>(reader: &mut R, endian: Endian, args: &()) -> (r: BinResult<NullWideString>) {
        assert(!Self::restores_on_failure());
        assert(Self::fails_only_at_end());
        let ghost c = old(reader).content();
        let ghost off = old(reader).offset();
        let ghost rem = remaining(c, off);
        let mut values: Vec<u16> = Vec::new();
        assert(after(rem, 0) =~= rem);
        loop
            invariant
                c == old(reader).content(),
                off == old(reader).offset(),
                rem == remaining(c, off),
                reader.content() == c,
                reader.faultless() == old(reader).faultless(),
                off + 2 * values@.len() == reader.offset(),
                2 * values@.len() <= available(c, off),
                wide_terminated(rem, endian) == prepend(
                    values@,
                    2,
                    wide_terminated(after(rem, 2 * values@.len()), endian),
                ),
            decreases available(c, reader.offset()),
        {
            let ghost i = 2 * values@.len();
            proof {
                lemma_remaining_advance(c, off, i);
                assert(after(rem, i) == remaining(c, off + i));
            }
            let val = u16::read_options(reader, endian, &())?;
            proof {
                let a = after(rem, i);
                lemma_bytes_value_bound(a.take(2), endian);
                reveal_with_fuel(crate::endian::byte_bound, 3);
                assert(a.skip(2) =~= after(rem, i + 2));
            }
            if val == 0 {
                proof {
                    assert(values@ + Seq::<u16>::empty() =~= values@);
                }
                return Ok(NullWideString(values));
            }
            let ghost before = values@;
            values.push(val);
            proof {
                let a = after(rem, i);
                match wide_terminated(a.skip(2), endian) {
                    Some((s, n)) => {
                        assert(before + (seq![val] + s) =~= values@ + s);
                    },
                    None => {},
                }
            }
        }
    }
}

impl BinWrite for NullWideString {
    type Args = ();

    open spec fn spec_write(&self, endian: Endian, args: ()) -> Seq<u8> {
        spec_write_many::<u16>(self.0@, endian, ()) + value_bytes(0, 2, endian)
    }

    /// Each unit in the call's byte order, then a zero unit.
    fn write_options<W: Write + Seek>(&self, writer: &mut W, endian: Endian, args: &()) -> (r: BinResult<()>) {
        u16::write_many(self.0.as_slice(), writer, endian, &())?;
        let zero: u16 = 0;
        zero.write_options(writer, endian, &())?;
        proof {
            lemma_overwrite_concat(
                old(writer).content(),
                old(writer).offset(),
                spec_write_many::<u16>(self.0@, endian, ()),
                value_bytes(0, 2, endian),
            );
        }
        Ok(())
    }
}

impl NullWideString {
    /// The text of the units when they are valid UTF-16.
    pub fn to_utf16(&self) -> (r: Option<String>)
        ensures
            utf16_valid(self.0@) ==> (r matches Some(t) && t@ == utf16_lossy(self.0@)),
            !utf16_valid(self.0@) ==> r is None,
    {
        let input = self.0.as_slice();
        let mut i: usize = 0;
        assert(input@.skip(0) =~= input@);
        while i < input.len()
            invariant
                i <= input@.len(),
                input@ == self.0@,
                utf16_valid(input@) == utf16_valid(input@.skip(i as int)),
            decreases input@.len() - i,
        {
            let u = input[i];
            let ghost s = input@.skip(i as int);
            if u < 0xD800 || u > 0xDFFF {
                assert(s.skip(1) =~= input@.skip(i + 1));
                i = i + 1;
            } else if u <= 0xDBFF && i + 1 < input.len() && input[i + 1] >= 0xDC00 && input[i + 1] <= 0xDFFF {
                assert(s.skip(2) =~= input@.skip(i + 2));
                i = i + 2;
            } else {
                return None;
            }
        }
        assert(input@.skip(i as int) =~= Seq::<u16>::empty());
        Some(display_utf16(input))
    }

    /// The text of the units; where they are not valid UTF-16 the
    /// replacement character stands in.
    pub fn text(&self) -> (r: String)
        ensures
            r@ == utf16_lossy(self.0@),
    {
        display_utf16(self.0.as_slice())
    }
}

/// Where `core::str::from_utf8` finds `b` invalid: the length of the valid
/// prefix, and the length of the invalid sequence after it (`None` when the
/// input ends inside a sequence).
pub uninterp spec fn utf8_error_at(b: Seq<u8>) -> (nat, Option<nat>);

/// Relies on `core::str::from_utf8`: the text of `b` when it is valid
/// UTF-8, and otherwise where it stops being valid (`Utf8Error::valid_up_to`
/// and `Utf8Error::error_len`, which is 1 to 3 bytes when present).
#[verifier::external_body]
fn utf8_check(b: &[u8]) -> (r: Result<&str, (usize, Option<usize>)>)
    ensures
        r matches Ok(s) ==> valid_utf8(b@) && s@ == decode_utf8(b@),
        r matches Err((up, len)) ==> {
            &&& !valid_utf8(b@)
            &&& utf8_error_at(b@) == (
                up as nat,
                match len {
                    Some(l) => Some(l as nat),
                    None => None,
                },
            )
            &&& up <= b@.len()
            &&& valid_utf8(b@.take(up as int))
            &&& (len matches Some(l) ==> 1 <= l <= 3 && up + l <= b@.len())
        },
{
    match core::str::from_utf8(b) {
        Ok(s) => Ok(s),
        Err(e) => Err((e.valid_up_to(), e.error_len())),
    }
}

/// The replacement character.
pub open spec fn replacement() -> char {
    '\u{FFFD}'
}

/// `b` read as UTF-8: each valid stretch decoded, and each invalid sequence
/// (or a sequence cut off at the end) shown as one replacement character.
pub open spec fn utf8_lossy(b: Seq<u8>) -> Seq<char>
    decreases b.len(),
{
    if valid_utf8(b) {
        decode_utf8(b)
    } else {
        let (up, len) = utf8_error_at(b);
        let head = decode_utf8(b.take(up as int)).push(replacement());
        match len {
            Some(l) => if l >= 1 && up + l <= b.len() {
                head + utf8_lossy(b.skip((up + l) as int))
            } else {
                head
            },
            None => head,
        }
    }
}

/// Renders bytes as text, standing the replacement character in for each
/// invalid sequence.
pub fn display_utf8(input: &[u8]) -> (r: String)
    ensures
        r@ == utf8_lossy(input@),
{
    let mut out = String::new();
    let mut rest: &[u8] = input;
    loop
        invariant
            utf8_lossy(input@) == out@ + utf8_lossy(rest@),
        decreases rest@.len(),
    {
        match utf8_check(rest) {
            Ok(valid) => {
                out.append(valid);
                return out;
            },
            Err((up, len)) => {
                let ghost before = out@;
                let ghost r0 = rest@;
                let prefix = vstd::slice::slice_subrange(rest, 0, up);
                match utf8_check(prefix) {
                    Ok(valid) => {
                        out.append(valid);
                    },
                    Err(_) => {
                        assert(prefix@ =~= rest@.take(up as int));
                    },
                }
                assert(prefix@ =~= r0.take(up as int));
                out.append("\u{FFFD}");
                proof {
                    reveal_strlit("\u{FFFD}");
                }
                match len {
                    Some(l) => {
                        let end = rest.len();
                        assert(up + l <= end);
                        rest = vstd::slice::slice_subrange(rest, up + l, end);
                        assert(rest@ =~= r0.skip(up + l));
                    },
                    None => {
                        return out;
                    },
                }
            },
        }
    }
}

/// Whether `u` is the first half of a surrogate pair.
pub open spec fn is_high_surrogate(u: u16) -> bool {
    0xD800 <= u <= 0xDBFF
}

/// Whether `u` is the second half of a surrogate pair.
pub open spec fn is_low_surrogate(u: u16) -> bool {
    0xDC00 <= u <= 0xDFFF
}

/// The code point of a surrogate pair.
pub open spec fn pair_value(hi: u16, lo: u16) -> u32 {
    (0x10000 + (hi - 0xD800) * 0x400 + (lo - 0xDC00)) as u32
}

/// `u` read as UTF-16: each unit that is not a surrogate is its character,
/// each surrogate pair the character it encodes, and each unpaired
/// surrogate one replacement character.
pub open spec fn utf16_lossy(u: Seq<u16>) -> Seq<char>
    decreases u.len(),
{
    if u.len() == 0 {
        Seq::empty()
    } else if !is_high_surrogate(u[0]) && !is_low_surrogate(u[0]) {
        seq![u[0] as char] + utf16_lossy(u.skip(1))
    } else if is_high_surrogate(u[0]) && u.len() >= 2 && is_low_surrogate(u[1]) {
        seq![pair_value(u[0], u[1]) as char] + utf16_lossy(u.skip(2))
    } else {
        seq![replacement()] + utf16_lossy(u.skip(1))
    }
}

/// Whether `u` pairs every surrogate.
pub open spec fn utf16_valid(u: Seq<u16>) -> bool
    decreases u.len(),
{
    if u.len() == 0 {
        true
    } else if !is_high_surrogate(u[0]) && !is_low_surrogate(u[0]) {
        utf16_valid(u.skip(1))
    } else if is_high_surrogate(u[0]) && u.len() >= 2 && is_low_surrogate(u[1]) {
        utf16_valid(u.skip(2))
    } else {
        false
    }
}

/// Relies on `char::from_u32`: the character with code point `v`, which
/// exists when `v` is at most `0x10FFFF` and not a surrogate.
#[verifier::external_body]
fn char_of(v: u32) -> (r: Option<char>)
    ensures
        r matches Some(c) ==> c == v as char,
        v <= 0x10FFFF && !(0xD800 <= v <= 0xDFFF) ==> r is Some,
{
    char::from_u32(v)
}

/// Relies on `String::push`: appends one character.
#[verifier::external_body]
fn push_char(s: &mut String, c: char)
    ensures
        final(s)@ == old(s)@.push(c),
{
    s.push(c)
}

/// Renders 16-bit units as text, standing the replacement character in for
/// each unpaired surrogate.
pub fn display_utf16(input: &[u16]) -> (r: String)
    ensures
        r@ == utf16_lossy(input@),
{
    let mut out = String::new();
    let mut i: usize = 0;
    assert(input@.skip(0) =~= input@);
    assert(out@ + utf16_lossy(input@) =~= utf16_lossy(input@));
    while i < input.len()
        invariant
            i <= input@.len(),
            utf16_lossy(input@) == out@ + utf16_lossy(input@.skip(i as int)),
        decreases input@.len() - i,
    {
        let u = input[i];
        let ghost s = input@.skip(i as int);
        let ghost before = out@;
        if u < 0xD800 || u > 0xDFFF {
            match char_of(u as u32) {
                Some(ch) => push_char(&mut out, ch),
                None => {},
            }
            assert(s.skip(1) =~= input@.skip(i + 1));
            i = i + 1;
        } else if u <= 0xDBFF && i + 1 < input.len() && input[i + 1] >= 0xDC00 && input[i + 1] <= 0xDFFF {
            let lo = input[i + 1];
            let v: u32 = 0x10000 + (u as u32 - 0xD800) * 0x400 + (lo as u32 - 0xDC00);
            match char_of(v) {
                Some(ch) => push_char(&mut out, ch),
                None => {},
            }
            assert(s.skip(2) =~= input@.skip(i + 2));
            i = i + 2;
        } else {
            push_char(&mut out, '\u{FFFD}');
            assert(s.skip(1) =~= input@.skip(i + 1));
            i = i + 1;
        }
        assert(out@ + utf16_lossy(input@.skip(i as int)) =~= before + utf16_lossy(s));
    }
    assert(input@.skip(i as int) =~= Seq::<u16>::empty());
    out
}

} // verus!
