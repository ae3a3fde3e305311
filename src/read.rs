//! Decoding: the `BinRead` contract, and the codecs of numbers, booleans,
//! collections, arrays, tuples and wrappers.
use vstd::prelude::*;
use crate::endian::{
    byte_bound, lemma_width_bound_1, lemma_width_bound_16, lemma_width_bound_2, lemma_width_bound_4,
    lemma_width_bound_8, bytes_value, lemma_bytes_value_bound, native, uint_from_bytes, Endian,
};
use crate::error::{BacktraceFrame, BinResult, Error};
use crate::io::{
    available, bytes_at, lemma_bytes_at_remaining, lemma_remaining_advance, remaining, IoErrorKind, Read, Seek,
};
use crate::private::{restore_position, rewind_failure, Required};

verus! {

/// A failed decode either left the cursor at `off` with the stream's own
/// error, or could not seek back and says so: the failed seek, the
/// rewinding message, then the stream's error.
pub open spec fn failure_restored(off: nat, off2: nat, e: Error) -> bool {
    ||| (off2 == off && e is Io)
    ||| {
        &&& e is Backtrace
        &&& (*e->Backtrace_0.error) is Io
        &&& e->Backtrace_0.frames@.len() == 2
        &&& (e->Backtrace_0.frames@[1] matches BacktraceFrame::Custom(x) && (*x) is Io && rewind_failure(
            e,
            *x,
            *e->Backtrace_0.error,
        ))
    }
}

/// The error says that the stream ended too soon.
pub open spec fn ended(e: Error) -> bool {
    e matches Error::Io(x) && x.kind == IoErrorKind::UnexpectedEof
}

/// Bytes left after the first `n` of `bytes`.
pub open spec fn after(bytes: Seq<u8>, n: nat) -> Seq<u8> {
    if n <= bytes.len() {
        bytes.skip(n as int)
    } else {
        Seq::empty()
    }
}

/// `count` values of `T` decoded one after another from the front of
/// `bytes`, and how many bytes they took together.
pub open spec fn spec_read_many<T: BinRead>(bytes: Seq<u8>, endian: Endian, args: T::Args, count: nat) -> Option<
    (Seq<<T as DeepView>::V>, nat),
>
    decreases count,
{
    if count == 0 {
        Some((Seq::empty(), 0))
    } else {
        match spec_read_many::<T>(bytes, endian, args, (count - 1) as nat) {
            Some((items, n)) => match T::spec_read(after(bytes, n), endian, args) {
                Some((v, m)) => if n + m <= bytes.len() {
                    Some((items.push(v), n + m))
                } else {
                    None
                },
                None => None,
            },
            None => None,
        }
    }
}

/// A type that can be decoded from a stream.
pub trait BinRead: Sized + DeepView {
    /// What a caller hands the decode besides the byte order.
    type Args;

    /// What the front of `bytes` decodes to, and how many bytes that takes;
    /// `None` when the bytes do not hold a value.
    spec fn spec_read(bytes: Seq<u8>, endian: Endian, args: Self::Args) -> Option<(<Self as DeepView>::V, nat)>;

    /// A failed decode of this type puts the cursor back where it started,
    /// or reports that it could not.
    spec fn restores_on_failure() -> bool;

    /// On a stream that never fails, a failed decode of this type only ever
    /// means that the stream ended too soon.
    spec fn fails_only_at_end() -> bool;

    /// Decodes a value at the cursor.
    fn read_options<R: Read + Seek>(reader: &mut R, endian: Endian, args: &Self::Args) -> (r: BinResult<Self>)
        ensures
            final(reader).content() == old(reader).content(),
            final(reader).faultless() == old(reader).faultless(),
            r matches Ok(v) ==> (old(reader).offset() <= final(reader).offset() && final(reader).offset()
                - old(reader).offset() <= available(old(reader).content(), old(reader).offset())
                && Self::spec_read(remaining(old(reader).content(), old(reader).offset()), endian, *args) == Some(
                (v.deep_view(), (final(reader).offset() - old(reader).offset()) as nat),
            )),
            Self::restores_on_failure() ==> (r matches Err(e) ==> failure_restored(
                old(reader).offset(),
                final(reader).offset(),
                e,
            )),
            Self::restores_on_failure() && old(reader).faultless() ==> (r is Err ==> final(reader).offset() == old(
                reader,
            ).offset()),
            Self::fails_only_at_end() && old(reader).faultless() ==> (r matches Err(e) ==> ended(e)),
            old(reader).faultless() ==> (r is Ok <==> Self::spec_read(
                remaining(old(reader).content(), old(reader).offset()),
                endian,
                *args,
            ) is Some),
    ;

    /// Decodes a little-endian value with the default arguments.
    fn read<R: Read + Seek>(reader: &mut R) -> (r: BinResult<Self>)
        where
            Self::Args: Required,
        ensures
            final(reader).content() == old(reader).content(),
            final(reader).faultless() == old(reader).faultless(),
            r matches Ok(v) ==> (old(reader).offset() <= final(reader).offset() && Self::spec_read(
                remaining(old(reader).content(), old(reader).offset()),
                Endian::Little,
                Self::Args::spec_args(),
            ) == Some((v.deep_view(), (final(reader).offset() - old(reader).offset()) as nat))),
            Self::restores_on_failure() ==> (r matches Err(e) ==> failure_restored(
                old(reader).offset(),
                final(reader).offset(),
                e,
            )),
            Self::restores_on_failure() && old(reader).faultless() ==> (r is Err ==> final(reader).offset() == old(
                reader,
            ).offset()),
            Self::fails_only_at_end() && old(reader).faultless() ==> (r matches Err(e) ==> ended(e)),
            old(reader).faultless() ==> (r is Ok <==> Self::spec_read(
                remaining(old(reader).content(), old(reader).offset()),
                Endian::Little,
                Self::Args::spec_args(),
            ) is Some),
    {
        let args = Self::Args::args();
        Self::read_options(reader, Endian::Little, &args)
    }

    /// Decodes a big-endian value with the default arguments.
    fn read_be<R: Read + Seek>(reader: &mut R) -> (r: BinResult<Self>)
        where
            Self::Args: Required,
        ensures
            final(reader).content() == old(reader).content(),
            final(reader).faultless() == old(reader).faultless(),
            r matches Ok(v) ==> (old(reader).offset() <= final(reader).offset() && Self::spec_read(
                remaining(old(reader).content(), old(reader).offset()),
                Endian::Big,
                Self::Args::spec_args(),
            ) == Some((v.deep_view(), (final(reader).offset() - old(reader).offset()) as nat))),
            Self::restores_on_failure() ==> (r matches Err(e) ==> failure_restored(
                old(reader).offset(),
                final(reader).offset(),
                e,
            )),
            Self::restores_on_failure() && old(reader).faultless() ==> (r is Err ==> final(reader).offset() == old(
                reader,
            ).offset()),
            Self::fails_only_at_end() && old(reader).faultless() ==> (r matches Err(e) ==> ended(e)),
            old(reader).faultless() ==> (r is Ok <==> Self::spec_read(
                remaining(old(reader).content(), old(reader).offset()),
                Endian::Big,
                Self::Args::spec_args(),
            ) is Some),
    {
        let args = Self::Args::args();
        Self::read_options(reader, Endian::Big, &args)
    }

    /// Decodes a little-endian value with the default arguments.
    fn read_le<R: Read + Seek>(reader: &mut R) -> (r: BinResult<Self>)
        where
            Self::Args: Required,
        ensures
            final(reader).content() == old(reader).content(),
            final(reader).faultless() == old(reader).faultless(),
            r matches Ok(v) ==> (old(reader).offset() <= final(reader).offset() && Self::spec_read(
                remaining(old(reader).content(), old(reader).offset()),
                Endian::Little,
                Self::Args::spec_args(),
            ) == Some((v.deep_view(), (final(reader).offset() - old(reader).offset()) as nat))),
            Self::restores_on_failure() ==> (r matches Err(e) ==> failure_restored(
                old(reader).offset(),
                final(reader).offset(),
                e,
            )),
            Self::restores_on_failure() && old(reader).faultless() ==> (r is Err ==> final(reader).offset() == old(
                reader,
            ).offset()),
            Self::fails_only_at_end() && old(reader).faultless() ==> (r matches Err(e) ==> ended(e)),
            old(reader).faultless() ==> (r is Ok <==> Self::spec_read(
                remaining(old(reader).content(), old(reader).offset()),
                Endian::Little,
                Self::Args::spec_args(),
            ) is Some),
    {
        let args = Self::Args::args();
        Self::read_options(reader, Endian::Little, &args)
    }

    /// Decodes a value in the machine's own byte order with the default
    /// arguments.
    fn read_ne<R: Read + Seek>(reader: &mut R) -> (r: BinResult<Self>)
        where
            Self::Args: Required,
        ensures
            final(reader).content() == old(reader).content(),
            final(reader).faultless() == old(reader).faultless(),
            Self::restores_on_failure() ==> (r matches Err(e) ==> failure_restored(
                old(reader).offset(),
                final(reader).offset(),
                e,
            )),
            Self::fails_only_at_end() && old(reader).faultless() ==> (r matches Err(e) ==> ended(e)),
            exists|e: Endian|
                #![trigger Self::spec_read(
                    remaining(old(reader).content(), old(reader).offset()),
                    e,
                    Self::Args::spec_args(),
                )]
                {
                    &&& (old(reader).faultless() ==> (r is Ok <==> Self::spec_read(
                        remaining(old(reader).content(), old(reader).offset()),
                        e,
                        Self::Args::spec_args(),
                    ) is Some))
                    &&& (r matches Ok(v) ==> old(reader).offset() <= final(reader).offset() && Self::spec_read(
                        remaining(old(reader).content(), old(reader).offset()),
                        e,
                        Self::Args::spec_args(),
                    ) == Some((v.deep_view(), (final(reader).offset() - old(reader).offset()) as nat)))
                },
    {
        let args = Self::Args::args();
        let e = native();
        Self::read_options(reader, e, &args)
    }

    /// Decodes a little-endian value with `args`.
    fn read_args<R: Read + Seek>(reader: &mut R, args: &Self::Args) -> (r: BinResult<Self>)
        ensures
            final(reader).content() == old(reader).content(),
            final(reader).faultless() == old(reader).faultless(),
            r matches Ok(v) ==> (old(reader).offset() <= final(reader).offset() && Self::spec_read(
                remaining(old(reader).content(), old(reader).offset()),
                Endian::Little,
                *args,
            ) == Some((v.deep_view(), (final(reader).offset() - old(reader).offset()) as nat))),
            Self::restores_on_failure() ==> (r matches Err(e) ==> failure_restored(
                old(reader).offset(),
                final(reader).offset(),
                e,
            )),
            Self::restores_on_failure() && old(reader).faultless() ==> (r is Err ==> final(reader).offset() == old(
                reader,
            ).offset()),
            Self::fails_only_at_end() && old(reader).faultless() ==> (r matches Err(e) ==> ended(e)),
            old(reader).faultless() ==> (r is Ok <==> Self::spec_read(
                remaining(old(reader).content(), old(reader).offset()),
                Endian::Little,
                *args,
            ) is Some),
    {
        Self::read_options(reader, Endian::Little, args)
    }

    /// Decodes a big-endian value with `args`.
    fn read_be_args<R: Read + Seek>(reader: &mut R, args: &Self::Args) -> (r: BinResult<Self>)
        ensures
            final(reader).content() == old(reader).content(),
            final(reader).faultless() == old(reader).faultless(),
            r matches Ok(v) ==> (old(reader).offset() <= final(reader).offset() && Self::spec_read(
                remaining(old(reader).content(), old(reader).offset()),
                Endian::Big,
                *args,
            ) == Some((v.deep_view(), (final(reader).offset() - old(reader).offset()) as nat))),
            Self::restores_on_failure() ==> (r matches Err(e) ==> failure_restored(
                old(reader).offset(),
                final(reader).offset(),
                e,
            )),
            Self::restores_on_failure() && old(reader).faultless() ==> (r is Err ==> final(reader).offset() == old(
                reader,
            ).offset()),
            Self::fails_only_at_end() && old(reader).faultless() ==> (r matches Err(e) ==> ended(e)),
            old(reader).faultless() ==> (r is Ok <==> Self::spec_read(
                remaining(old(reader).content(), old(reader).offset()),
                Endian::Big,
                *args,
            ) is Some),
    {
        Self::read_options(reader, Endian::Big, args)
    }

    /// Decodes a little-endian value with `args`.
    fn read_le_args<R: Read + Seek>(reader: &mut R, args: &Self::Args) -> (r: BinResult<Self>)
        ensures
            final(reader).content() == old(reader).content(),
            final(reader).faultless() == old(reader).faultless(),
            r matches Ok(v) ==> (old(reader).offset() <= final(reader).offset() && Self::spec_read(
                remaining(old(reader).content(), old(reader).offset()),
                Endian::Little,
                *args,
            ) == Some((v.deep_view(), (final(reader).offset() - old(reader).offset()) as nat))),
            Self::restores_on_failure() ==> (r matches Err(e) ==> failure_restored(
                old(reader).offset(),
                final(reader).offset(),
                e,
            )),
            Self::restores_on_failure() && old(reader).faultless() ==> (r is Err ==> final(reader).offset() == old(
                reader,
            ).offset()),
            Self::fails_only_at_end() && old(reader).faultless() ==> (r matches Err(e) ==> ended(e)),
            old(reader).faultless() ==> (r is Ok <==> Self::spec_read(
                remaining(old(reader).content(), old(reader).offset()),
                Endian::Little,
                *args,
            ) is Some),
    {
        Self::read_options(reader, Endian::Little, args)
    }

    /// Decodes a value in the machine's own byte order with `args`.
    fn read_ne_args<R: Read + Seek>(reader: &mut R, args: &Self::Args) -> (r: BinResult<Self>)
        ensures
            final(reader).content() == old(reader).content(),
            final(reader).faultless() == old(reader).faultless(),
            Self::restores_on_failure() ==> (r matches Err(e) ==> failure_restored(
                old(reader).offset(),
                final(reader).offset(),
                e,
            )),
            Self::fails_only_at_end() && old(reader).faultless() ==> (r matches Err(e) ==> ended(e)),
            exists|e: Endian|
                #![trigger Self::spec_read(
                    remaining(old(reader).content(), old(reader).offset()),
                    e,
                    *args,
                )]
                {
                    &&& (old(reader).faultless() ==> (r is Ok <==> Self::spec_read(
                        remaining(old(reader).content(), old(reader).offset()),
                        e,
                        *args,
                    ) is Some))
                    &&& (r matches Ok(v) ==> old(reader).offset() <= final(reader).offset() && Self::spec_read(
                        remaining(old(reader).content(), old(reader).offset()),
                        e,
                        *args,
                    ) == Some((v.deep_view(), (final(reader).offset() - old(reader).offset()) as nat)))
                },
    {
        let e = native();
        Self::read_options(reader, e, args)
    }
}

/// Decoding several values of a type one after another. A type whose
/// values are single bytes does it with one bulk read.
pub trait ReadMany: BinRead {
    /// Decodes `count` values one after another.
    fn read_many<R: Read + Seek>(
        reader: &mut R,
        endian: Endian,
        args: &Self::Args,
        count: usize,
    ) -> (r: BinResult<Vec<Self>>)
        ensures
            final(reader).content() == old(reader).content(),
            final(reader).faultless() == old(reader).faultless(),
            r matches Ok(v) ==> {
                &&& old(reader).offset() <= final(reader).offset()
                &&& final(reader).offset() - old(reader).offset() <= available(
                    old(reader).content(),
                    old(reader).offset(),
                )
                &&& spec_read_many::<Self>(
                    remaining(old(reader).content(), old(reader).offset()),
                    endian,
                    *args,
                    count as nat,
                ) == Some((v.deep_view(), (final(reader).offset() - old(reader).offset()) as nat))
            },
            Self::fails_only_at_end() && old(reader).faultless() ==> (r matches Err(e) ==> ended(e)),
            old(reader).faultless() ==> (r is Ok <==> spec_read_many::<Self>(
                remaining(old(reader).content(), old(reader).offset()),
                endian,
                *args,
                count as nat,
            ) is Some),
    {
        let ghost c = old(reader).content();
        let ghost off = old(reader).offset();
        let ghost rem = remaining(c, off);
        let mut list: Vec<Self> = Vec::new();
        let mut i: usize = 0;
        while i < count
            invariant
                c == old(reader).content(),
                off == old(reader).offset(),
                rem == remaining(c, off),
                reader.content() == c,
                reader.faultless() == old(reader).faultless(),
                i <= count,
                off <= reader.offset(),
                reader.offset() - off <= available(c, off),
                spec_read_many::<Self>(rem, endian, *args, i as nat) == Some(
                    (list.deep_view(), (reader.offset() - off) as nat),
                ),
            decreases count - i,
        {
            let ghost n = (reader.offset() - off) as nat;
            proof {
                lemma_remaining_advance(c, off, n);
                lemma_bytes_at_remaining(c, off, n);
            }
            let item = Self::read_options(reader, endian, args);
            match item {
                Ok(item) => {
                    let ghost m = (reader.offset() - off - n) as nat;
                    proof {
                        assert(after(rem, n) == remaining(c, off + n));
                        assert(n + m <= rem.len());
                    }
                    let ghost before = list.deep_view();
                    list.push(item);
                    assert(list.deep_view() =~= before.push(item.deep_view()));
                },
                Err(e) => {
                    proof {
                        if old(reader).faultless() {
                            lemma_read_many_stops::<Self>(rem, endian, *args, i as nat, count as nat);
                        }
                    }
                    return Err(e);
                },
            }
            i = i + 1;
        }
        Ok(list)
    }

}

/// When the value at index `i` does not decode, neither do `count > i`
/// values.
pub proof fn lemma_read_many_stops<T: BinRead>(bytes: Seq<u8>, endian: Endian, args: T::Args, i: nat, count: nat)
    requires
        i < count,
        spec_read_many::<T>(bytes, endian, args, i) is Some,
        spec_read_many::<T>(bytes, endian, args, i + 1) is None,
    ensures
        spec_read_many::<T>(bytes, endian, args, count) is None,
    decreases count,
{
    if count > i + 1 {
        lemma_read_many_stops::<T>(bytes, endian, args, i, (count - 1) as nat);
    }
}

/// Reads a `width`-byte unsigned number at the cursor. On failure the cursor
/// is put back where it was; if that seek fails too, both failures are
/// reported.
pub fn read_uint<R: Read + Seek>(reader: &mut R, width: usize, endian: Endian) -> (r: BinResult<u128>)
    requires
        1 <= width <= 16,
    ensures
        final(reader).content() == old(reader).content(),
        final(reader).faultless() == old(reader).faultless(),
        r matches Ok(v) ==> {
            &&& width <= available(old(reader).content(), old(reader).offset())
            &&& v == bytes_value(bytes_at(old(reader).content(), old(reader).offset(), width as nat), endian)
            &&& final(reader).offset() == old(reader).offset() + width
        },
        r matches Err(e) ==> failure_restored(old(reader).offset(), final(reader).offset(), e),
        old(reader).faultless() ==> (r matches Err(e) ==> ended(e) && final(reader).offset() == old(
            reader,
        ).offset()),
        old(reader).faultless() ==> (r is Ok <==> width <= available(
            old(reader).content(),
            old(reader).offset(),
        )),
{
    proof {
        old(reader).lemma_stream_bounds();
    }
    let pos = match reader.stream_position() {
        Ok(p) => p,
        Err(e) => {
            return Err(Error::Io(e));
        },
    };
    let mut val: Vec<u8> = vec![0u8; width];
    let result = reader.read_exact(val.as_mut_slice());
    match result {
        Ok(()) => {},
        Err(e) => {
            let err = restore_position(reader, pos, Error::Io(e));
            return Err(err);
        },
    }
    Ok(uint_from_bytes(val.as_slice(), endian))
}

/// What `n`, as `w` unsigned bytes, means as a two's-complement number.
pub open spec fn signed_value(n: nat, w: nat) -> int {
    if n < byte_bound(w) / 2 {
        n as int
    } else {
        n - byte_bound(w)
    }
}

/// Decoding `count` bytes one by one takes exactly the first `count` bytes.
pub proof fn lemma_bytes_read_many(bytes: Seq<u8>, endian: Endian, count: nat)
    ensures
        count <= bytes.len() ==> spec_read_many::<u8>(bytes, endian, (), count) == Some(
            (bytes.take(count as int), count),
        ),
        count > bytes.len() ==> spec_read_many::<u8>(bytes, endian, (), count) is None,
    decreases count,
{
    if count > 0 {
        lemma_bytes_read_many(bytes, endian, (count - 1) as nat);
        if count <= bytes.len() {
            let b = bytes.skip(count - 1);
            assert(b.take(1) =~= seq![bytes[count - 1]]);
            reveal_with_fuel(crate::endian::le_value, 2);
            reveal_with_fuel(crate::endian::be_value, 2);
            assert(seq![bytes[count - 1]].skip(1) =~= Seq::<u8>::empty());
            assert(seq![bytes[count - 1]].drop_last() =~= Seq::<u8>::empty());
            assert(bytes.take(count - 1).push(bytes[count - 1]) =~= bytes.take(count as int));
        } else if count - 1 <= bytes.len() {
            assert(after(bytes, (count - 1) as nat).len() == 0);
        }
    }
}






impl BinRead for u8 {
    type Args = ();

    open spec fn spec_read(bytes: Seq<u8>, endian: Endian, args: ()) -> Option<(u8, nat)> {
        if bytes.len() >= 1 {
            Some((bytes_value(bytes.take(1), endian) as u8, 1nat))
        } else {
            None
        }
    }

    open spec fn restores_on_failure() -> bool {
        true
    }

    open spec fn fails_only_at_end() -> bool {
        true
    }

    fn read_options<R: Read + Seek>(reader: &mut R, endian: Endian, args: &()) -> (r: BinResult<u8>) {
        let v = read_uint(reader, 1, endian)?;
        proof {
            lemma_bytes_at_remaining(old(reader).content(), old(reader).offset(), 1);
            lemma_width_bound_1();
            lemma_bytes_value_bound(bytes_at(old(reader).content(), old(reader).offset(), 1nat), endian);
        }
        Ok(v as u8)
    }

}

impl BinRead for u16 {
    type Args = ();

    open spec fn spec_read(bytes: Seq<u8>, endian: Endian, args: ()) -> Option<(u16, nat)> {
        if bytes.len() >= 2 {
            Some((bytes_value(bytes.take(2), endian) as u16, 2nat))
        } else {
            None
        }
    }

    open spec fn restores_on_failure() -> bool {
        true
    }

    open spec fn fails_only_at_end() -> bool {
        true
    }

    fn read_options<R: Read + Seek>(reader: &mut R, endian: Endian, args: &()) -> (r: BinResult<u16>) {
        let v = read_uint(reader, 2, endian)?;
        proof {
            lemma_bytes_at_remaining(old(reader).content(), old(reader).offset(), 2);
            lemma_width_bound_2();
            lemma_bytes_value_bound(bytes_at(old(reader).content(), old(reader).offset(), 2nat), endian);
        }
        Ok(v as u16)
    }
}

impl BinRead for u32 {
    type Args = ();

    open spec fn spec_read(bytes: Seq<u8>, endian: Endian, args: ()) -> Option<(u32, nat)> {
        if bytes.len() >= 4 {
            Some((bytes_value(bytes.take(4), endian) as u32, 4nat))
        } else {
            None
        }
    }

    open spec fn restores_on_failure() -> bool {
        true
    }

    open spec fn fails_only_at_end() -> bool {
        true
    }

    fn read_options<R: Read + Seek>(reader: &mut R, endian: Endian, args: &()) -> (r: BinResult<u32>) {
        let v = read_uint(reader, 4, endian)?;
        proof {
            lemma_bytes_at_remaining(old(reader).content(), old(reader).offset(), 4);
            lemma_width_bound_4();
            lemma_bytes_value_bound(bytes_at(old(reader).content(), old(reader).offset(), 4nat), endian);
        }
        Ok(v as u32)
    }
}

impl BinRead for u64 {
    type Args = ();

    open spec fn spec_read(bytes: Seq<u8>, endian: Endian, args: ()) -> Option<(u64, nat)> {
        if bytes.len() >= 8 {
            Some((bytes_value(bytes.take(8), endian) as u64, 8nat))
        } else {
            None
        }
    }

    open spec fn restores_on_failure() -> bool {
        true
    }

    open spec fn fails_only_at_end() -> bool {
        true
    }

    fn read_options<R: Read + Seek>(reader: &mut R, endian: Endian, args: &()) -> (r: BinResult<u64>) {
        let v = read_uint(reader, 8, endian)?;
        proof {
            lemma_bytes_at_remaining(old(reader).content(), old(reader).offset(), 8);
            lemma_width_bound_8();
            lemma_bytes_value_bound(bytes_at(old(reader).content(), old(reader).offset(), 8nat), endian);
        }
        Ok(v as u64)
    }
}

impl BinRead for u128 {
    type Args = ();

    open spec fn spec_read(bytes: Seq<u8>, endian: Endian, args: ()) -> Option<(u128, nat)> {
        if bytes.len() >= 16 {
            Some((bytes_value(bytes.take(16), endian) as u128, 16nat))
        } else {
            None
        }
    }

    open spec fn restores_on_failure() -> bool {
        true
    }

    open spec fn fails_only_at_end() -> bool {
        true
    }

    fn read_options<R: Read + Seek>(reader: &mut R, endian: Endian, args: &()) -> (r: BinResult<u128>) {
        let v = read_uint(reader, 16, endian)?;
        proof {
            lemma_bytes_at_remaining(old(reader).content(), old(reader).offset(), 16);
            lemma_width_bound_16();
            lemma_bytes_value_bound(bytes_at(old(reader).content(), old(reader).offset(), 16nat), endian);
        }
        Ok(v as u128)
    }
}

impl BinRead for i8 {
    type Args = ();

    open spec fn spec_read(bytes: Seq<u8>, endian: Endian, args: ()) -> Option<(i8, nat)> {
        if bytes.len() >= 1 {
            Some((signed_value(bytes_value(bytes.take(1), endian), 1) as i8, 1nat))
        } else {
            None
        }
    }

    open spec fn restores_on_failure() -> bool {
        true
    }

    open spec fn fails_only_at_end() -> bool {
        true
    }

    fn read_options<R: Read + Seek>(reader: &mut R, endian: Endian, args: &()) -> (r: BinResult<i8>) {
        let v = read_uint(reader, 1, endian)?;
        proof {
            lemma_bytes_at_remaining(old(reader).content(), old(reader).offset(), 1);
            lemma_width_bound_1();
            lemma_bytes_value_bound(bytes_at(old(reader).content(), old(reader).offset(), 1nat), endian);
        }
        if v < 0x80 {
            Ok(v as i8)
        } else {
            Ok((v as i128 - 0x100) as i8)
        }
    }
}

impl BinRead for i16 {
    type Args = ();

    open spec fn spec_read(bytes: Seq<u8>, endian: Endian, args: ()) -> Option<(i16, nat)> {
        if bytes.len() >= 2 {
            Some((signed_value(bytes_value(bytes.take(2), endian), 2) as i16, 2nat))
        } else {
            None
        }
    }

    open spec fn restores_on_failure() -> bool {
        true
    }

    open spec fn fails_only_at_end() -> bool {
        true
    }

    fn read_options<R: Read + Seek>(reader: &mut R, endian: Endian, args: &()) -> (r: BinResult<i16>) {
        let v = read_uint(reader, 2, endian)?;
        proof {
            lemma_bytes_at_remaining(old(reader).content(), old(reader).offset(), 2);
            lemma_width_bound_2();
            lemma_bytes_value_bound(bytes_at(old(reader).content(), old(reader).offset(), 2nat), endian);
        }
        if v < 0x8000 {
            Ok(v as i16)
        } else {
            Ok((v as i128 - 0x10000) as i16)
        }
    }
}

impl BinRead for i32 {
    type Args = ();

    open spec fn spec_read(bytes: Seq<u8>, endian: Endian, args: ()) -> Option<(i32, nat)> {
        if bytes.len() >= 4 {
            Some((signed_value(bytes_value(bytes.take(4), endian), 4) as i32, 4nat))
        } else {
            None
        }
    }

    open spec fn restores_on_failure() -> bool {
        true
    }

    open spec fn fails_only_at_end() -> bool {
        true
    }

    fn read_options<R: Read + Seek>(reader: &mut R, endian: Endian, args: &()) -> (r: BinResult<i32>) {
        let v = read_uint(reader, 4, endian)?;
        proof {
            lemma_bytes_at_remaining(old(reader).content(), old(reader).offset(), 4);
            lemma_width_bound_4();
            lemma_bytes_value_bound(bytes_at(old(reader).content(), old(reader).offset(), 4nat), endian);
        }
        if v < 0x80000000 {
            Ok(v as i32)
        } else {
            Ok((v as i128 - 0x100000000) as i32)
        }
    }
}

impl BinRead for i64 {
    type Args = ();

    open spec fn spec_read(bytes: Seq<u8>, endian: Endian, args: ()) -> Option<(i64, nat)> {
        if bytes.len() >= 8 {
            Some((signed_value(bytes_value(bytes.take(8), endian), 8) as i64, 8nat))
        } else {
            None
        }
    }

    open spec fn restores_on_failure() -> bool {
        true
    }

    open spec fn fails_only_at_end() -> bool {
        true
    }

    fn read_options<R: Read + Seek>(reader: &mut R, endian: Endian, args: &()) -> (r: BinResult<i64>) {
        let v = read_uint(reader, 8, endian)?;
        proof {
            lemma_bytes_at_remaining(old(reader).content(), old(reader).offset(), 8);
            lemma_width_bound_8();
            lemma_bytes_value_bound(bytes_at(old(reader).content(), old(reader).offset(), 8nat), endian);
        }
        if v < 0x8000000000000000 {
            Ok(v as i64)
        } else {
            Ok((v as i128 - 0x10000000000000000) as i64)
        }
    }
}

impl BinRead for i128 {
    type Args = ();

    open spec fn spec_read(bytes: Seq<u8>, endian: Endian, args: ()) -> Option<(i128, nat)> {
        if bytes.len() >= 16 {
            Some((signed_value(bytes_value(bytes.take(16), endian), 16) as i128, 16nat))
        } else {
            None
        }
    }

    open spec fn restores_on_failure() -> bool {
        true
    }

    open spec fn fails_only_at_end() -> bool {
        true
    }

    fn read_options<R: Read + Seek>(reader: &mut R, endian: Endian, args: &()) -> (r: BinResult<i128>) {
        let v = read_uint(reader, 16, endian)?;
        proof {
            lemma_bytes_at_remaining(old(reader).content(), old(reader).offset(), 16);
            lemma_width_bound_16();
            lemma_bytes_value_bound(bytes_at(old(reader).content(), old(reader).offset(), 16nat), endian);
        }
        if v < 0x80000000000000000000000000000000 {
            Ok(v as i128)
        } else {
            Ok(-((u128::MAX - v) as i128) - 1)
        }
    }
}

impl ReadMany for u8 {
    /// A single bulk read, the same bytes as one-by-one decoding.
    fn read_many<R: Read + Seek>(reader: &mut R, endian: Endian, args: &(), count: usize) -> (r: BinResult<Vec<u8>>) {
        let mut list: Vec<u8> = vec![0u8; count];
        proof {
            lemma_bytes_read_many(remaining(old(reader).content(), old(reader).offset()), endian, count as nat);
        }
        match reader.read_exact(list.as_mut_slice()) {
            Ok(()) => {
                proof {
                    let c = old(reader).content();
                    let off = old(reader).offset();
                    lemma_bytes_at_remaining(c, off, count as nat);
                    assert(list.deep_view() =~= list@);
                }
                Ok(list)
            },
            Err(e) => Err(Error::Io(e)),
        }
    }
}

impl ReadMany for u16 {
}

impl ReadMany for u32 {
}

impl ReadMany for u64 {
}

impl ReadMany for u128 {
}

impl ReadMany for i8 {
}

impl ReadMany for i16 {
}

impl ReadMany for i32 {
}

impl ReadMany for i64 {
}

impl ReadMany for i128 {
}

impl BinRead for bool {
    type Args = ();

    open spec fn spec_read(bytes: Seq<u8>, endian: Endian, args: ()) -> Option<(bool, nat)> {
        match u8::spec_read(bytes, endian, ()) {
            Some((b, n)) => Some((b != 0, n)),
            None => None,
        }
    }

    /// One byte; any value but zero is true.
    open spec fn restores_on_failure() -> bool {
        true
    }

    open spec fn fails_only_at_end() -> bool {
        true
    }

    fn read_options<R: Read + Seek>(reader: &mut R, endian: Endian, args: &()) -> (r: BinResult<bool>) {
        let value: u8 = u8::read_options(reader, endian, &())?;
        Ok(value != 0)
    }
}

impl ReadMany for bool {
}

impl BinRead for () {
    type Args = ();

    open spec fn spec_read(bytes: Seq<u8>, endian: Endian, args: ()) -> Option<((), nat)> {
        Some(((), 0))
    }

    /// Takes no bytes.
    open spec fn restores_on_failure() -> bool {
        true
    }

    open spec fn fails_only_at_end() -> bool {
        true
    }

    fn read_options<R: Read + Seek>(reader: &mut R, endian: Endian, args: &()) -> (r: BinResult<()>) {
        Ok(())
    }
}

impl ReadMany for () {
}

/// A collection whose length the caller gives; its items are decoded with
/// their default arguments.
impl<B: ReadMany> BinRead for Vec<B> where B::Args: Required {
    type Args = usize;

    open spec fn spec_read(bytes: Seq<u8>, endian: Endian, count: usize) -> Option<(Seq<<B as DeepView>::V>, nat)> {
        spec_read_many::<B>(bytes, endian, B::Args::spec_args(), count as nat)
    }

    open spec fn restores_on_failure() -> bool {
        false
    }

    open spec fn fails_only_at_end() -> bool {
        B::fails_only_at_end()
    }

    fn read_options<R: Read + Seek>(reader: &mut R, endian: Endian, args: &usize) -> (r: BinResult<Vec<B>>) {
        let b_args = B::Args::args();
        assert(!Self::restores_on_failure());
        assert(Self::fails_only_at_end() == B::fails_only_at_end());
        B::read_many(reader, endian, &b_args, *args)
    }
}

impl<B: ReadMany> ReadMany for Vec<B> where B::Args: Required {
}

/// Relies on std's `TryFrom<Vec<T>>` for `[T; N]`: a vector of exactly `N`
/// items becomes the array of those items, in order.
#[verifier::external_body]
fn array_from_vec<T, const N: usize>(v: Vec<T>) -> (r: [T; N])
    requires
        v@.len() == N,
    ensures
        r@ == v@,
{
    <[T; N]>::try_from(v).ok().unwrap()
}

/// `N` items in order, each with the array's arguments. The items decoded
/// before a failure are dropped, each once.
impl<B: ReadMany, const N: usize> BinRead for [B; N] {
    type Args = B::Args;

    open spec fn spec_read(bytes: Seq<u8>, endian: Endian, args: B::Args) -> Option<(Seq<<B as DeepView>::V>, nat)> {
        spec_read_many::<B>(bytes, endian, args, N as nat)
    }

    open spec fn restores_on_failure() -> bool {
        false
    }

    open spec fn fails_only_at_end() -> bool {
        B::fails_only_at_end()
    }

    fn read_options<R: Read + Seek>(reader: &mut R, endian: Endian, args: &B::Args) -> (r: BinResult<[B; N]>) {
        assert(!Self::restores_on_failure());
        assert(Self::fails_only_at_end() == B::fails_only_at_end());
        let list = B::read_many(reader, endian, args, N)?;
        proof {
            lemma_read_many_len::<B>(remaining(old(reader).content(), old(reader).offset()), endian, *args, N as nat);
        }
        let arr: [B; N] = array_from_vec(list);
        assert(arr.deep_view() =~= list.deep_view());
        Ok(arr)
    }
}

impl<B: ReadMany, const N: usize> ReadMany for [B; N] {
}

/// A boxed value is its content.
impl<T: BinRead> BinRead for Box<T> {
    type Args = T::Args;

    open spec fn spec_read(bytes: Seq<u8>, endian: Endian, args: T::Args) -> Option<(<T as DeepView>::V, nat)> {
        T::spec_read(bytes, endian, args)
    }

    open spec fn restores_on_failure() -> bool {
        T::restores_on_failure()
    }

    open spec fn fails_only_at_end() -> bool {
        T::fails_only_at_end()
    }

    fn read_options<R: Read + Seek>(reader: &mut R, endian: Endian, args: &T::Args) -> (r: BinResult<Box<T>>) {
        assert(Self::restores_on_failure() == T::restores_on_failure());
        assert(Self::fails_only_at_end() == T::fails_only_at_end());
        let v = T::read_options(reader, endian, args)?;
        Ok(Box::new(v))
    }
}

impl<T: BinRead> ReadMany for Box<T> {
}

/// Always decodes the inner value and wraps it as present: nothing in the
/// stream marks a value as absent.
impl<T: BinRead> BinRead for Option<T> {
    type Args = T::Args;

    open spec fn spec_read(bytes: Seq<u8>, endian: Endian, args: T::Args) -> Option<(Option<<T as DeepView>::V>, nat)> {
        match T::spec_read(bytes, endian, args) {
            Some((v, n)) => Some((Some(v), n)),
            None => None,
        }
    }

    open spec fn restores_on_failure() -> bool {
        T::restores_on_failure()
    }

    open spec fn fails_only_at_end() -> bool {
        T::fails_only_at_end()
    }

    fn read_options<R: Read + Seek>(reader: &mut R, endian: Endian, args: &T::Args) -> (r: BinResult<Option<T>>) {
        assert(Self::restores_on_failure() == T::restores_on_failure());
        assert(Self::fails_only_at_end() == T::fails_only_at_end());
        let v = T::read_options(reader, endian, args)?;
        Ok(Some(v))
    }
}

impl<T: BinRead> ReadMany for Option<T> {
}

/// Two fields in order, sharing the arguments.
impl<X, A: BinRead<Args = X>, B: BinRead<Args = X>> BinRead for (A, B) {
    type Args = X;

    open spec fn spec_read(bytes: Seq<u8>, endian: Endian, args: X) -> Option<
        ((<A as DeepView>::V, <B as DeepView>::V), nat),
    > {
        match A::spec_read(bytes, endian, args) {
            Some((a, n)) => match B::spec_read(after(bytes, n), endian, args) {
                Some((b, m)) => if n + m <= bytes.len() {
                    Some(((a, b), n + m))
                } else {
                    None
                },
                None => None,
            },
            None => None,
        }
    }

    open spec fn restores_on_failure() -> bool {
        false
    }

    open spec fn fails_only_at_end() -> bool {
        A::fails_only_at_end() && B::fails_only_at_end()
    }

    fn read_options<R: Read + Seek>(reader: &mut R, endian: Endian, args: &X) -> (r: BinResult<(A, B)>) {
        assert(!Self::restores_on_failure());
        assert(Self::fails_only_at_end() == (A::fails_only_at_end() && B::fails_only_at_end()));
        let ghost c = old(reader).content();
        let ghost off = old(reader).offset();
        let a = A::read_options(reader, endian, args)?;
        let ghost n = (reader.offset() - off) as nat;
        proof {
            lemma_remaining_advance(c, off, n);
        }
        let b = B::read_options(reader, endian, args)?;
        Ok((a, b))
    }
}

impl<X, A: BinRead<Args = X>, B: BinRead<Args = X>> ReadMany for (A, B) {
}

/// Three fields in order, sharing the arguments.
impl<X, A: BinRead<Args = X>, B: BinRead<Args = X>, C: BinRead<Args = X>> BinRead for (A, B, C) {
    type Args = X;

    open spec fn spec_read(bytes: Seq<u8>, endian: Endian, args: X) -> Option<
        ((<A as DeepView>::V, <B as DeepView>::V, <C as DeepView>::V), nat),
    > {
        match <(A, B)>::spec_read(bytes, endian, args) {
            Some(((a, b), n)) => match C::spec_read(after(bytes, n), endian, args) {
                Some((c, m)) => if n + m <= bytes.len() {
                    Some(((a, b, c), n + m))
                } else {
                    None
                },
                None => None,
            },
            None => None,
        }
    }

    open spec fn restores_on_failure() -> bool {
        false
    }

    open spec fn fails_only_at_end() -> bool {
        A::fails_only_at_end() && B::fails_only_at_end() && C::fails_only_at_end()
    }

    fn read_options<R: Read + Seek>(reader: &mut R, endian: Endian, args: &X) -> (r: BinResult<(A, B, C)>) {
        assert(!Self::restores_on_failure());
        assert(Self::fails_only_at_end() == (A::fails_only_at_end() && B::fails_only_at_end()
            && C::fails_only_at_end()));
        let ghost c = old(reader).content();
        let ghost off = old(reader).offset();
        let a = A::read_options(reader, endian, args)?;
        let ghost n = (reader.offset() - off) as nat;
        proof {
            lemma_remaining_advance(c, off, n);
        }
        let b = B::read_options(reader, endian, args)?;
        let ghost n2 = (reader.offset() - off) as nat;
        proof {
            lemma_remaining_advance(c, off, n2);
            assert(after(remaining(c, off), n) =~= remaining(c, off + n));
        }
        let x = C::read_options(reader, endian, args)?;
        Ok((a, b, x))
    }
}

impl<X, A: BinRead<Args = X>, B: BinRead<Args = X>, C: BinRead<Args = X>> ReadMany for (A, B, C) {
}

/// What `count` decoded values are is a sequence of `count` models.
pub proof fn lemma_read_many_len<T: BinRead>(bytes: Seq<u8>, endian: Endian, args: T::Args, count: nat)
    ensures
        spec_read_many::<T>(bytes, endian, args, count) matches Some((s, n)) ==> s.len() == count && n
            <= bytes.len(),
    decreases count,
{
    if count > 0 {
        lemma_read_many_len::<T>(bytes, endian, args, (count - 1) as nat);
    }
}

/// Decoding called on the stream.
pub trait BinReaderExt: Read + Seek + Sized {
    /// Decodes a `T` in byte order `endian` with its default arguments.
    fn read_type<T: BinRead>(&mut self, endian: Endian) -> (r: BinResult<T>)
        where
            T::Args: Required,
        ensures
            final(self).content() == old(self).content(),
            final(self).faultless() == old(self).faultless(),
            r matches Ok(v) ==> (old(self).offset() <= final(self).offset() && T::spec_read(
                remaining(old(self).content(), old(self).offset()),
                endian,
                T::Args::spec_args(),
            ) == Some((v.deep_view(), (final(self).offset() - old(self).offset()) as nat))),
            T::restores_on_failure() ==> (r matches Err(e) ==> failure_restored(
                old(self).offset(),
                final(self).offset(),
                e,
            )),
            T::restores_on_failure() && old(self).faultless() ==> (r is Err ==> final(self).offset() == old(
                self,
            ).offset()),
            T::fails_only_at_end() && old(self).faultless() ==> (r matches Err(e) ==> ended(e)),
            old(self).faultless() ==> (r is Ok <==> T::spec_read(
                remaining(old(self).content(), old(self).offset()),
                endian,
                T::Args::spec_args(),
            ) is Some),
    {
        let args = T::Args::args();
        T::read_options(self, endian, &args)
    }

    /// Decodes a big-endian `T` with its default arguments.
    fn read_be<T: BinRead>(&mut self) -> (r: BinResult<T>)
        where
            T::Args: Required,
        ensures
            final(self).content() == old(self).content(),
            final(self).faultless() == old(self).faultless(),
            r matches Ok(v) ==> (old(self).offset() <= final(self).offset() && T::spec_read(
                remaining(old(self).content(), old(self).offset()),
                Endian::Big,
                T::Args::spec_args(),
            ) == Some((v.deep_view(), (final(self).offset() - old(self).offset()) as nat))),
            T::restores_on_failure() ==> (r matches Err(e) ==> failure_restored(
                old(self).offset(),
                final(self).offset(),
                e,
            )),
            T::restores_on_failure() && old(self).faultless() ==> (r is Err ==> final(self).offset() == old(
                self,
            ).offset()),
            T::fails_only_at_end() && old(self).faultless() ==> (r matches Err(e) ==> ended(e)),
            old(self).faultless() ==> (r is Ok <==> T::spec_read(
                remaining(old(self).content(), old(self).offset()),
                Endian::Big,
                T::Args::spec_args(),
            ) is Some),
    {
        self.read_type(Endian::Big)
    }

    /// Decodes a little-endian `T` with its default arguments.
    fn read_le<T: BinRead>(&mut self) -> (r: BinResult<T>)
        where
            T::Args: Required,
        ensures
            final(self).content() == old(self).content(),
            final(self).faultless() == old(self).faultless(),
            r matches Ok(v) ==> (old(self).offset() <= final(self).offset() && T::spec_read(
                remaining(old(self).content(), old(self).offset()),
                Endian::Little,
                T::Args::spec_args(),
            ) == Some((v.deep_view(), (final(self).offset() - old(self).offset()) as nat))),
            T::restores_on_failure() ==> (r matches Err(e) ==> failure_restored(
                old(self).offset(),
                final(self).offset(),
                e,
            )),
            T::restores_on_failure() && old(self).faultless() ==> (r is Err ==> final(self).offset() == old(
                self,
            ).offset()),
            T::fails_only_at_end() && old(self).faultless() ==> (r matches Err(e) ==> ended(e)),
            old(self).faultless() ==> (r is Ok <==> T::spec_read(
                remaining(old(self).content(), old(self).offset()),
                Endian::Little,
                T::Args::spec_args(),
            ) is Some),
    {
        self.read_type(Endian::Little)
    }

    /// Decodes a `T` in the machine's own byte order with its default arguments.
    fn read_ne<T: BinRead>(&mut self) -> (r: BinResult<T>)
        where
            T::Args: Required,
        ensures
            final(self).content() == old(self).content(),
            final(self).faultless() == old(self).faultless(),
            T::restores_on_failure() ==> (r matches Err(e) ==> failure_restored(
                old(self).offset(),
                final(self).offset(),
                e,
            )),
            T::fails_only_at_end() && old(self).faultless() ==> (r matches Err(e) ==> ended(e)),
            exists|e: Endian|
                #![trigger T::spec_read(
                    remaining(old(self).content(), old(self).offset()),
                    e,
                    T::Args::spec_args(),
                )]
                {
                    &&& (old(self).faultless() ==> (r is Ok <==> T::spec_read(
                        remaining(old(self).content(), old(self).offset()),
                        e,
                        T::Args::spec_args(),
                    ) is Some))
                    &&& (r matches Ok(v) ==> old(self).offset() <= final(self).offset() && T::spec_read(
                        remaining(old(self).content(), old(self).offset()),
                        e,
                        T::Args::spec_args(),
                    ) == Some((v.deep_view(), (final(self).offset() - old(self).offset()) as nat)))
                },
    {
        let e = native();
        self.read_type(e)
    }

    /// Decodes a `T` in byte order `endian` with `args`.
    fn read_type_args<T: BinRead>(&mut self, endian: Endian, args: &T::Args) -> (r: BinResult<T>)
        ensures
            final(self).content() == old(self).content(),
            final(self).faultless() == old(self).faultless(),
            r matches Ok(v) ==> (old(self).offset() <= final(self).offset() && T::spec_read(
                remaining(old(self).content(), old(self).offset()),
                endian,
                *args,
            ) == Some((v.deep_view(), (final(self).offset() - old(self).offset()) as nat))),
            T::restores_on_failure() ==> (r matches Err(e) ==> failure_restored(
                old(self).offset(),
                final(self).offset(),
                e,
            )),
            T::restores_on_failure() && old(self).faultless() ==> (r is Err ==> final(self).offset() == old(
                self,
            ).offset()),
            T::fails_only_at_end() && old(self).faultless() ==> (r matches Err(e) ==> ended(e)),
            old(self).faultless() ==> (r is Ok <==> T::spec_read(
                remaining(old(self).content(), old(self).offset()),
                endian,
                *args,
            ) is Some),
    {
        T::read_options(self, endian, args)
    }

    /// Decodes a big-endian `T` with `args`.
    fn read_be_args<T: BinRead>(&mut self, args: &T::Args) -> (r: BinResult<T>)
        ensures
            final(self).content() == old(self).content(),
            final(self).faultless() == old(self).faultless(),
            r matches Ok(v) ==> (old(self).offset() <= final(self).offset() && T::spec_read(
                remaining(old(self).content(), old(self).offset()),
                Endian::Big,
                *args,
            ) == Some((v.deep_view(), (final(self).offset() - old(self).offset()) as nat))),
            T::restores_on_failure() ==> (r matches Err(e) ==> failure_restored(
                old(self).offset(),
                final(self).offset(),
                e,
            )),
            T::restores_on_failure() && old(self).faultless() ==> (r is Err ==> final(self).offset() == old(
                self,
            ).offset()),
            T::fails_only_at_end() && old(self).faultless() ==> (r matches Err(e) ==> ended(e)),
            old(self).faultless() ==> (r is Ok <==> T::spec_read(
                remaining(old(self).content(), old(self).offset()),
                Endian::Big,
                *args,
            ) is Some),
    {
        self.read_type_args(Endian::Big, args)
    }

    /// Decodes a little-endian `T` with `args`.
    fn read_le_args<T: BinRead>(&mut self, args: &T::Args) -> (r: BinResult<T>)
        ensures
            final(self).content() == old(self).content(),
            final(self).faultless() == old(self).faultless(),
            r matches Ok(v) ==> (old(self).offset() <= final(self).offset() && T::spec_read(
                remaining(old(self).content(), old(self).offset()),
                Endian::Little,
                *args,
            ) == Some((v.deep_view(), (final(self).offset() - old(self).offset()) as nat))),
            T::restores_on_failure() ==> (r matches Err(e) ==> failure_restored(
                old(self).offset(),
                final(self).offset(),
                e,
            )),
            T::restores_on_failure() && old(self).faultless() ==> (r is Err ==> final(self).offset() == old(
                self,
            ).offset()),
            T::fails_only_at_end() && old(self).faultless() ==> (r matches Err(e) ==> ended(e)),
            old(self).faultless() ==> (r is Ok <==> T::spec_read(
                remaining(old(self).content(), old(self).offset()),
                Endian::Little,
                *args,
            ) is Some),
    {
        self.read_type_args(Endian::Little, args)
    }

    /// Decodes a `T` in the machine's own byte order with `args`.
    fn read_ne_args<T: BinRead>(&mut self, args: &T::Args) -> (r: BinResult<T>)
        ensures
            final(self).content() == old(self).content(),
            final(self).faultless() == old(self).faultless(),
            T::restores_on_failure() ==> (r matches Err(e) ==> failure_restored(
                old(self).offset(),
                final(self).offset(),
                e,
            )),
            T::fails_only_at_end() && old(self).faultless() ==> (r matches Err(e) ==> ended(e)),
            exists|e: Endian|
                #![trigger T::spec_read(
                    remaining(old(self).content(), old(self).offset()),
                    e,
                    *args,
                )]
                {
                    &&& (old(self).faultless() ==> (r is Ok <==> T::spec_read(
                        remaining(old(self).content(), old(self).offset()),
                        e,
                        *args,
                    ) is Some))
                    &&& (r matches Ok(v) ==> old(self).offset() <= final(self).offset() && T::spec_read(
                        remaining(old(self).content(), old(self).offset()),
                        e,
                        *args,
                    ) == Some((v.deep_view(), (final(self).offset() - old(self).offset()) as nat)))
                },
    {
        let e = native();
        self.read_type_args(e, args)
    }
}

impl<R: Read + Seek> BinReaderExt for R {
}

} // verus!
