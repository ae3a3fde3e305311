//! Encoding: the `BinWrite` contract, and the codecs of numbers, booleans,
//! collections, arrays, tuples and wrappers.
use vstd::prelude::*;
use crate::endian::{
    byte_bound, lemma_width_bound_1, lemma_width_bound_16, lemma_width_bound_2, lemma_width_bound_4,
    lemma_width_bound_8, lemma_value_bytes_len, lemma_value_round_trip, native, uint_to_bytes, value_bytes, Endian,
};
use crate::error::{BinResult, Error};
use crate::io::{lemma_overwrite_concat, overwrite, Seek, Write};
use crate::private::Required;
use crate::read::{signed_value, BinRead};

verus! {

/// `v` as the unsigned number of `w` bytes that stores it in two's complement.
pub open spec fn unsigned_value(v: int, w: nat) -> nat {
    if v >= 0 {
        v as nat
    } else {
        (v + byte_bound(w)) as nat
    }
}

/// The bytes of `items` encoded one after another.
pub open spec fn spec_write_many<T: BinWrite>(items: Seq<T>, endian: Endian, args: T::Args) -> Seq<u8>
    decreases items.len(),
{
    if items.len() == 0 {
        Seq::empty()
    } else {
        spec_write_many::<T>(items.drop_last(), endian, args) + items.last().spec_write(endian, args)
    }
}

/// A type that can be encoded into a stream.
pub trait BinWrite: Sized {
    /// What a caller hands the encode besides the byte order.
    type Args;

    /// The bytes that encode this value.
    spec fn spec_write(&self, endian: Endian, args: Self::Args) -> Seq<u8>;

    /// Writes this value's bytes at the cursor.
    fn write_options<W: Write + Seek>(&self, writer: &mut W, endian: Endian, args: &Self::Args) -> (r: BinResult<()>)
        ensures
            final(writer).faultless() == old(writer).faultless(),
            final(writer).restarts() == old(writer).restarts(),
            !old(writer).restarts() ==> (r is Ok ==> {
                &&& final(writer).content() == overwrite(
                    old(writer).content(),
                    old(writer).offset(),
                    self.spec_write(endian, *args),
                )
                &&& final(writer).offset() == old(writer).offset() + self.spec_write(endian, *args).len()
            }),
            self.spec_write(endian, *args).len() == 0 ==> r is Ok && final(writer).content() == old(
                writer,
            ).content() && final(writer).offset() == old(writer).offset(),
            old(writer).faultless() && !old(writer).restarts() && old(writer).offset() + self.spec_write(
                endian,
                *args,
            ).len() <= usize::MAX ==> r is Ok,
    ;

    /// Encodes little-endian with the default arguments.
    fn write<W: Write + Seek>(&self, writer: &mut W) -> (r: BinResult<()>)
        where
            Self::Args: Required,
        ensures
            !old(writer).restarts() && r is Ok ==> final(writer).content() == overwrite(
                old(writer).content(),
                old(writer).offset(),
                self.spec_write(Endian::Little, Self::Args::spec_args()),
            ),
            old(writer).faultless() && !old(writer).restarts()
                && old(writer).offset() + self.spec_write(Endian::Little, Self::Args::spec_args()).len()
                <= usize::MAX ==> r is Ok,
    {
        let args = Self::Args::args();
        self.write_options(writer, Endian::Little, &args)
    }

    /// Encodes big-endian with the default arguments.
    fn write_be<W: Write + Seek>(&self, writer: &mut W) -> (r: BinResult<()>)
        where
            Self::Args: Required,
        ensures
            !old(writer).restarts() && r is Ok ==> final(writer).content() == overwrite(
                old(writer).content(),
                old(writer).offset(),
                self.spec_write(Endian::Big, Self::Args::spec_args()),
            ),
            old(writer).faultless() && !old(writer).restarts()
                && old(writer).offset() + self.spec_write(Endian::Big, Self::Args::spec_args()).len()
                <= usize::MAX ==> r is Ok,
    {
        let args = Self::Args::args();
        self.write_options(writer, Endian::Big, &args)
    }

    /// Encodes little-endian with the default arguments.
    fn write_le<W: Write + Seek>(&self, writer: &mut W) -> (r: BinResult<()>)
        where
            Self::Args: Required,
        ensures
            !old(writer).restarts() && r is Ok ==> final(writer).content() == overwrite(
                old(writer).content(),
                old(writer).offset(),
                self.spec_write(Endian::Little, Self::Args::spec_args()),
            ),
            old(writer).faultless() && !old(writer).restarts()
                && old(writer).offset() + self.spec_write(Endian::Little, Self::Args::spec_args()).len()
                <= usize::MAX ==> r is Ok,
    {
        let args = Self::Args::args();
        self.write_options(writer, Endian::Little, &args)
    }

    /// Encodes in the machine's own byte order with the default arguments.
    fn write_ne<W: Write + Seek>(&self, writer: &mut W) -> (r: BinResult<()>)
        where
            Self::Args: Required,
        ensures
            exists|e: Endian| #![trigger self.spec_write(e, Self::Args::spec_args())]
                {
                    &&& (!old(writer).restarts() && r is Ok ==> final(writer).content() == overwrite(
                        old(writer).content(),
                        old(writer).offset(),
                        self.spec_write(e, Self::Args::spec_args()),
                    ))
                    &&& (old(writer).faultless() && !old(writer).restarts() && old(writer).offset() + self.spec_write(
                        e,
                        Self::Args::spec_args(),
                    ).len() <= usize::MAX ==> r is Ok)
                },
    {
        let args = Self::Args::args();
        let e = native();
        self.write_options(writer, e, &args)
    }

    /// Encodes little-endian with `args`.
    fn write_args<W: Write + Seek>(&self, writer: &mut W, args: &Self::Args) -> (r: BinResult<()>)
        ensures
            !old(writer).restarts() && r is Ok ==> final(writer).content() == overwrite(
                old(writer).content(),
                old(writer).offset(),
                self.spec_write(Endian::Little, *args),
            ),
            old(writer).faultless() && !old(writer).restarts()
                && old(writer).offset() + self.spec_write(Endian::Little, *args).len()
                <= usize::MAX ==> r is Ok,
    {
        self.write_options(writer, Endian::Little, args)
    }

    /// Encodes big-endian with `args`.
    fn write_be_args<W: Write + Seek>(&self, writer: &mut W, args: &Self::Args) -> (r: BinResult<()>)
        ensures
            !old(writer).restarts() && r is Ok ==> final(writer).content() == overwrite(
                old(writer).content(),
                old(writer).offset(),
                self.spec_write(Endian::Big, *args),
            ),
            old(writer).faultless() && !old(writer).restarts()
                && old(writer).offset() + self.spec_write(Endian::Big, *args).len()
                <= usize::MAX ==> r is Ok,
    {
        self.write_options(writer, Endian::Big, args)
    }

    /// Encodes little-endian with `args`.
    fn write_le_args<W: Write + Seek>(&self, writer: &mut W, args: &Self::Args) -> (r: BinResult<()>)
        ensures
            !old(writer).restarts() && r is Ok ==> final(writer).content() == overwrite(
                old(writer).content(),
                old(writer).offset(),
                self.spec_write(Endian::Little, *args),
            ),
            old(writer).faultless() && !old(writer).restarts()
                && old(writer).offset() + self.spec_write(Endian::Little, *args).len()
                <= usize::MAX ==> r is Ok,
    {
        self.write_options(writer, Endian::Little, args)
    }

    /// Encodes in the machine's own byte order with `args`.
    fn write_ne_args<W: Write + Seek>(&self, writer: &mut W, args: &Self::Args) -> (r: BinResult<()>)
        ensures
            exists|e: Endian| #![trigger self.spec_write(e, *args)]
                {
                    &&& (!old(writer).restarts() && r is Ok ==> final(writer).content() == overwrite(
                        old(writer).content(),
                        old(writer).offset(),
                        self.spec_write(e, *args),
                    ))
                    &&& (old(writer).faultless() && !old(writer).restarts() && old(writer).offset() + self.spec_write(
                        e,
                        *args,
                    ).len() <= usize::MAX ==> r is Ok)
                },
    {
        let e = native();
        self.write_options(writer, e, args)
    }
}

/// Encoding several values of a type one after another. A type whose
/// values are single bytes does it with one bulk write.
pub trait WriteMany: BinWrite {
    /// Writes `items` in order.
    fn write_many<W: Write + Seek>(
        items: &[Self],
        writer: &mut W,
        endian: Endian,
        args: &Self::Args,
    ) -> (r: BinResult<()>)
        ensures
            final(writer).faultless() == old(writer).faultless(),
            final(writer).restarts() == old(writer).restarts(),
            !old(writer).restarts() ==> (r is Ok ==> {
                &&& final(writer).content() == overwrite(
                    old(writer).content(),
                    old(writer).offset(),
                    spec_write_many::<Self>(items@, endian, *args),
                )
                &&& final(writer).offset() == old(writer).offset() + spec_write_many::<Self>(
                    items@,
                    endian,
                    *args,
                ).len()
            }),
            spec_write_many::<Self>(items@, endian, *args).len() == 0 ==> r is Ok && final(writer).content()
                == old(writer).content() && final(writer).offset() == old(writer).offset(),
            old(writer).faultless() && !old(writer).restarts() && old(writer).offset() + spec_write_many::<Self>(
                items@,
                endian,
                *args,
            ).len() <= usize::MAX ==> r is Ok,
    {
        let mut i: usize = 0;
        assert(items@.skip(0) =~= items@);
        assert(items@.take(0) =~= Seq::<Self>::empty());
        while i < items.len()
            invariant
                i <= items@.len(),
                writer.faultless() == old(writer).faultless(),
                writer.restarts() == old(writer).restarts(),
                !old(writer).restarts() ==> writer.content() == overwrite(
                    old(writer).content(),
                    old(writer).offset(),
                    spec_write_many::<Self>(items@.take(i as int), endian, *args),
                ),
                !old(writer).restarts() ==> writer.offset() == old(writer).offset() + spec_write_many::<Self>(
                    items@.take(i as int),
                    endian,
                    *args,
                ).len(),
                spec_write_many::<Self>(items@, endian, *args).len() == 0 ==> writer.content() == old(
                    writer,
                ).content() && writer.offset() == old(writer).offset(),
                old(writer).faultless() && !old(writer).restarts() && old(writer).offset()
                    + spec_write_many::<Self>(items@, endian, *args).len() <= usize::MAX ==> writer.offset()
                    + spec_write_many::<Self>(items@.skip(i as int), endian, *args).len() <= usize::MAX,
            decreases items@.len() - i,
        {
            proof {
                lemma_write_many_split::<Self>(items@, endian, *args, i as nat);
                lemma_write_many_split::<Self>(items@.skip(i as int), endian, *args, 1);
                assert(items@.skip(i as int).take(1) =~= seq![items@[i as int]]);
                assert(items@.skip(i as int).skip(1) =~= items@.skip(i + 1));
                assert(seq![items@[i as int]].drop_last() =~= Seq::<Self>::empty());
                assert(items@.take(i + 1).drop_last() =~= items@.take(i as int));
            }
            let ghost before = spec_write_many::<Self>(items@.take(i as int), endian, *args);
            items[i].write_options(writer, endian, args)?;
            proof {
                lemma_overwrite_concat(
                    old(writer).content(),
                    old(writer).offset(),
                    before,
                    items@[i as int].spec_write(endian, *args),
                );
            }
            i = i + 1;
        }
        assert(items@.take(items@.len() as int) =~= items@);
        Ok(())
    }
}

/// Encoding the first `k` items and then the rest is encoding them all.
pub proof fn lemma_write_many_split<T: BinWrite>(items: Seq<T>, endian: Endian, args: T::Args, k: nat)
    requires
        k <= items.len(),
    ensures
        spec_write_many::<T>(items, endian, args) == spec_write_many::<T>(items.take(k as int), endian, args)
            + spec_write_many::<T>(items.skip(k as int), endian, args),
    decreases items.len(),
{
    if k == items.len() {
        assert(items.take(k as int) =~= items);
        assert(items.skip(k as int) =~= Seq::<T>::empty());
        assert(spec_write_many::<T>(items.skip(k as int), endian, args) =~= Seq::<u8>::empty());
        let all = spec_write_many::<T>(items, endian, args);
        assert(all + Seq::<u8>::empty() =~= all);
    } else {
        lemma_write_many_split::<T>(items.drop_last(), endian, args, k);
        assert(items.drop_last().take(k as int) =~= items.take(k as int));
        assert(items.skip(k as int).drop_last() =~= items.drop_last().skip(k as int));
        assert(items.skip(k as int).last() == items.last());
        assert(spec_write_many::<T>(items, endian, args) =~= spec_write_many::<T>(items.take(k as int), endian, args)
            + spec_write_many::<T>(items.skip(k as int), endian, args));
    }
}

/// Writes the `width` bytes of `n` in byte order `endian` at the cursor.
fn write_uint<W: Write + Seek>(writer: &mut W, n: u128, width: usize, endian: Endian) -> (r: BinResult<()>)
    requires
        width <= 16,
    ensures
        final(writer).faultless() == old(writer).faultless(),
        final(writer).restarts() == old(writer).restarts(),
        !old(writer).restarts() ==> (r is Ok ==> {
            &&& final(writer).content() == overwrite(
                old(writer).content(),
                old(writer).offset(),
                value_bytes(n as nat, width as nat, endian),
            )
            &&& final(writer).offset() == old(writer).offset() + width
        }),
        width == 0 ==> r is Ok && final(writer).content() == old(writer).content() && final(writer).offset()
            == old(writer).offset(),
        old(writer).faultless() && !old(writer).restarts() && old(writer).offset() + width <= usize::MAX ==> r is Ok,
{
    let bytes = uint_to_bytes(n, width, endian);
    proof {
        lemma_value_bytes_len(n as nat, width as nat, endian);
    }
    match writer.write_all(bytes.as_slice()) {
        Ok(()) => Ok(()),
        Err(e) => Err(Error::Io(e)),
    }
}

/// Relies on `bytemuck::cast_slice` from `i8` to `u8`: the same memory
/// read as bytes, so each item's two's-complement bit pattern, in order.
#[verifier::external_body]
fn signed_bytes(items: &[i8]) -> (r: &[u8])
    ensures
        r@.len() == items@.len(),
        forall|i: int| 0 <= i < items@.len() ==> r@[i] as nat == unsigned_value(#[trigger] items@[i] as int, 1),
{
    bytemuck::cast_slice::<i8, u8>(items)
}

impl BinWrite for u8 {
    type Args = ();

    open spec fn spec_write(&self, endian: Endian, args: ()) -> Seq<u8> {
        value_bytes(*self as nat, 1, endian)
    }

    fn write_options<W: Write + Seek>(&self, writer: &mut W, endian: Endian, args: &()) -> (r: BinResult<()>) {
        proof {
            lemma_value_bytes_len(*self as nat, 1, endian);
        }
        write_uint(writer, *self as u128, 1, endian)
    }
}

/// A `u8` comes back from its encoding, in either byte order.
pub proof fn lemma_u8_round_trip(v: u8, endian: Endian)
    ensures
        <u8 as BinRead>::spec_read(v.spec_write(endian, ()), endian, ()) == Some((v, 1nat)),
{
    lemma_width_bound_1();
    let n = v as nat;
    lemma_value_bytes_len(n, 1, endian);
    lemma_value_round_trip(n, 1, endian);
    let b = value_bytes(n, 1, endian);
    assert(b.take(1) =~= b);
}

impl BinWrite for u16 {
    type Args = ();

    open spec fn spec_write(&self, endian: Endian, args: ()) -> Seq<u8> {
        value_bytes(*self as nat, 2, endian)
    }

    fn write_options<W: Write + Seek>(&self, writer: &mut W, endian: Endian, args: &()) -> (r: BinResult<()>) {
        proof {
            lemma_value_bytes_len(*self as nat, 2, endian);
        }
        write_uint(writer, *self as u128, 2, endian)
    }
}

impl WriteMany for u16 {
}

/// A `u16` comes back from its encoding, in either byte order.
pub proof fn lemma_u16_round_trip(v: u16, endian: Endian)
    ensures
        <u16 as BinRead>::spec_read(v.spec_write(endian, ()), endian, ()) == Some((v, 2nat)),
{
    lemma_width_bound_2();
    let n = v as nat;
    lemma_value_bytes_len(n, 2, endian);
    lemma_value_round_trip(n, 2, endian);
    let b = value_bytes(n, 2, endian);
    assert(b.take(2) =~= b);
}

impl BinWrite for u32 {
    type Args = ();

    open spec fn spec_write(&self, endian: Endian, args: ()) -> Seq<u8> {
        value_bytes(*self as nat, 4, endian)
    }

    fn write_options<W: Write + Seek>(&self, writer: &mut W, endian: Endian, args: &()) -> (r: BinResult<()>) {
        proof {
            lemma_value_bytes_len(*self as nat, 4, endian);
        }
        write_uint(writer, *self as u128, 4, endian)
    }
}

impl WriteMany for u32 {
}

/// A `u32` comes back from its encoding, in either byte order.
pub proof fn lemma_u32_round_trip(v: u32, endian: Endian)
    ensures
        <u32 as BinRead>::spec_read(v.spec_write(endian, ()), endian, ()) == Some((v, 4nat)),
{
    lemma_width_bound_4();
    let n = v as nat;
    lemma_value_bytes_len(n, 4, endian);
    lemma_value_round_trip(n, 4, endian);
    let b = value_bytes(n, 4, endian);
    assert(b.take(4) =~= b);
}

impl BinWrite for u64 {
    type Args = ();

    open spec fn spec_write(&self, endian: Endian, args: ()) -> Seq<u8> {
        value_bytes(*self as nat, 8, endian)
    }

    fn write_options<W: Write + Seek>(&self, writer: &mut W, endian: Endian, args: &()) -> (r: BinResult<()>) {
        proof {
            lemma_value_bytes_len(*self as nat, 8, endian);
        }
        write_uint(writer, *self as u128, 8, endian)
    }
}

impl WriteMany for u64 {
}

/// A `u64` comes back from its encoding, in either byte order.
pub proof fn lemma_u64_round_trip(v: u64, endian: Endian)
    ensures
        <u64 as BinRead>::spec_read(v.spec_write(endian, ()), endian, ()) == Some((v, 8nat)),
{
    lemma_width_bound_8();
    let n = v as nat;
    lemma_value_bytes_len(n, 8, endian);
    lemma_value_round_trip(n, 8, endian);
    let b = value_bytes(n, 8, endian);
    assert(b.take(8) =~= b);
}

impl BinWrite for u128 {
    type Args = ();

    open spec fn spec_write(&self, endian: Endian, args: ()) -> Seq<u8> {
        value_bytes(*self as nat, 16, endian)
    }

    fn write_options<W: Write + Seek>(&self, writer: &mut W, endian: Endian, args: &()) -> (r: BinResult<()>) {
        proof {
            lemma_value_bytes_len(*self as nat, 16, endian);
        }
        write_uint(writer, *self as u128, 16, endian)
    }
}

impl WriteMany for u128 {
}

/// A `u128` comes back from its encoding, in either byte order.
pub proof fn lemma_u128_round_trip(v: u128, endian: Endian)
    ensures
        <u128 as BinRead>::spec_read(v.spec_write(endian, ()), endian, ()) == Some((v, 16nat)),
{
    lemma_width_bound_16();
    let n = v as nat;
    lemma_value_bytes_len(n, 16, endian);
    lemma_value_round_trip(n, 16, endian);
    let b = value_bytes(n, 16, endian);
    assert(b.take(16) =~= b);
}

impl BinWrite for i8 {
    type Args = ();

    open spec fn spec_write(&self, endian: Endian, args: ()) -> Seq<u8> {
        value_bytes(unsigned_value(*self as int, 1), 1, endian)
    }

    fn write_options<W: Write + Seek>(&self, writer: &mut W, endian: Endian, args: &()) -> (r: BinResult<()>) {
        proof {
            lemma_value_bytes_len(unsigned_value(*self as int, 1), 1, endian);
        }
        let n: u128 = if *self >= 0 {
            *self as u128
        } else {
            (*self as i128 + 0x100) as u128
        };
        proof {
            lemma_width_bound_1();
        }
        write_uint(writer, n, 1, endian)
    }
}

/// A `i8` comes back from its encoding, in either byte order.
pub proof fn lemma_i8_round_trip(v: i8, endian: Endian)
    ensures
        <i8 as BinRead>::spec_read(v.spec_write(endian, ()), endian, ()) == Some((v, 1nat)),
{
    lemma_width_bound_1();
    let n = unsigned_value(v as int, 1);
    lemma_value_bytes_len(n, 1, endian);
    lemma_value_round_trip(n, 1, endian);
    let b = value_bytes(n, 1, endian);
    assert(b.take(1) =~= b);
    assert(signed_value(unsigned_value(v as int, 1), 1) == v as int);
}

impl BinWrite for i16 {
    type Args = ();

    open spec fn spec_write(&self, endian: Endian, args: ()) -> Seq<u8> {
        value_bytes(unsigned_value(*self as int, 2), 2, endian)
    }

    fn write_options<W: Write + Seek>(&self, writer: &mut W, endian: Endian, args: &()) -> (r: BinResult<()>) {
        proof {
            lemma_value_bytes_len(unsigned_value(*self as int, 2), 2, endian);
        }
        let n: u128 = if *self >= 0 {
            *self as u128
        } else {
            (*self as i128 + 0x10000) as u128
        };
        proof {
            lemma_width_bound_2();
        }
        write_uint(writer, n, 2, endian)
    }
}

impl WriteMany for i16 {
}

/// A `i16` comes back from its encoding, in either byte order.
pub proof fn lemma_i16_round_trip(v: i16, endian: Endian)
    ensures
        <i16 as BinRead>::spec_read(v.spec_write(endian, ()), endian, ()) == Some((v, 2nat)),
{
    lemma_width_bound_2();
    let n = unsigned_value(v as int, 2);
    lemma_value_bytes_len(n, 2, endian);
    lemma_value_round_trip(n, 2, endian);
    let b = value_bytes(n, 2, endian);
    assert(b.take(2) =~= b);
    assert(signed_value(unsigned_value(v as int, 2), 2) == v as int);
}

impl BinWrite for i32 {
    type Args = ();

    open spec fn spec_write(&self, endian: Endian, args: ()) -> Seq<u8> {
        value_bytes(unsigned_value(*self as int, 4), 4, endian)
    }

    fn write_options<W: Write + Seek>(&self, writer: &mut W, endian: Endian, args: &()) -> (r: BinResult<()>) {
        proof {
            lemma_value_bytes_len(unsigned_value(*self as int, 4), 4, endian);
        }
        let n: u128 = if *self >= 0 {
            *self as u128
        } else {
            (*self as i128 + 0x100000000) as u128
        };
        proof {
            lemma_width_bound_4();
        }
        write_uint(writer, n, 4, endian)
    }
}

impl WriteMany for i32 {
}

/// A `i32` comes back from its encoding, in either byte order.
pub proof fn lemma_i32_round_trip(v: i32, endian: Endian)
    ensures
        <i32 as BinRead>::spec_read(v.spec_write(endian, ()), endian, ()) == Some((v, 4nat)),
{
    lemma_width_bound_4();
    let n = unsigned_value(v as int, 4);
    lemma_value_bytes_len(n, 4, endian);
    lemma_value_round_trip(n, 4, endian);
    let b = value_bytes(n, 4, endian);
    assert(b.take(4) =~= b);
    assert(signed_value(unsigned_value(v as int, 4), 4) == v as int);
}

impl BinWrite for i64 {
    type Args = ();

    open spec fn spec_write(&self, endian: Endian, args: ()) -> Seq<u8> {
        value_bytes(unsigned_value(*self as int, 8), 8, endian)
    }

    fn write_options<W: Write + Seek>(&self, writer: &mut W, endian: Endian, args: &()) -> (r: BinResult<()>) {
        proof {
            lemma_value_bytes_len(unsigned_value(*self as int, 8), 8, endian);
        }
        let n: u128 = if *self >= 0 {
            *self as u128
        } else {
            (*self as i128 + 0x10000000000000000) as u128
        };
        proof {
            lemma_width_bound_8();
        }
        write_uint(writer, n, 8, endian)
    }
}

impl WriteMany for i64 {
}

/// A `i64` comes back from its encoding, in either byte order.
pub proof fn lemma_i64_round_trip(v: i64, endian: Endian)
    ensures
        <i64 as BinRead>::spec_read(v.spec_write(endian, ()), endian, ()) == Some((v, 8nat)),
{
    lemma_width_bound_8();
    let n = unsigned_value(v as int, 8);
    lemma_value_bytes_len(n, 8, endian);
    lemma_value_round_trip(n, 8, endian);
    let b = value_bytes(n, 8, endian);
    assert(b.take(8) =~= b);
    assert(signed_value(unsigned_value(v as int, 8), 8) == v as int);
}

impl BinWrite for i128 {
    type Args = ();

    open spec fn spec_write(&self, endian: Endian, args: ()) -> Seq<u8> {
        value_bytes(unsigned_value(*self as int, 16), 16, endian)
    }

    fn write_options<W: Write + Seek>(&self, writer: &mut W, endian: Endian, args: &()) -> (r: BinResult<()>) {
        proof {
            lemma_value_bytes_len(unsigned_value(*self as int, 16), 16, endian);
        }
        let n: u128 = if *self >= 0 {
            *self as u128
        } else {
            u128::MAX - ((-(*self + 1)) as u128)
        };
        proof {
            lemma_width_bound_16();
        }
        write_uint(writer, n, 16, endian)
    }
}

impl WriteMany for i128 {
}

/// A `i128` comes back from its encoding, in either byte order.
pub proof fn lemma_i128_round_trip(v: i128, endian: Endian)
    ensures
        <i128 as BinRead>::spec_read(v.spec_write(endian, ()), endian, ()) == Some((v, 16nat)),
{
    lemma_width_bound_16();
    let n = unsigned_value(v as int, 16);
    lemma_value_bytes_len(n, 16, endian);
    lemma_value_round_trip(n, 16, endian);
    let b = value_bytes(n, 16, endian);
    assert(b.take(16) =~= b);
    assert(signed_value(unsigned_value(v as int, 16), 16) == v as int);
}

/// Encoding bytes one by one gives those same bytes.
pub proof fn lemma_bytes_write_many(items: Seq<u8>, endian: Endian)
    ensures
        spec_write_many::<u8>(items, endian, ()) == items,
    decreases items.len(),
{
    if items.len() > 0 {
        lemma_bytes_write_many(items.drop_last(), endian);
        reveal_with_fuel(crate::endian::le_bytes, 2);
        reveal_with_fuel(crate::endian::be_bytes, 2);
        let v = items.last();
        assert(value_bytes(v as nat, 1, endian) =~= seq![v]);
        assert(items.drop_last().push(v) =~= items);
    }
}

/// Encoding signed bytes one by one gives their two's-complement patterns.
pub proof fn lemma_signed_write_many(items: Seq<i8>, bytes: Seq<u8>, endian: Endian)
    requires
        bytes.len() == items.len(),
        forall|i: int| 0 <= i < items.len() ==> bytes[i] as nat == unsigned_value(#[trigger] items[i] as int, 1),
    ensures
        spec_write_many::<i8>(items, endian, ()) == bytes,
    decreases items.len(),
{
    if items.len() > 0 {
        lemma_signed_write_many(items.drop_last(), bytes.drop_last(), endian);
        reveal_with_fuel(crate::endian::le_bytes, 2);
        reveal_with_fuel(crate::endian::be_bytes, 2);
        lemma_width_bound_1();
        let v = items.last();
        assert(bytes[items.len() - 1] as nat == unsigned_value(v as int, 1));
        assert(value_bytes(unsigned_value(v as int, 1), 1, endian) =~= seq![bytes.last()]);
        assert(bytes.drop_last().push(bytes.last()) =~= bytes);
    }
}

impl WriteMany for u8 {
    /// One bulk write of the bytes.
    fn write_many<W: Write + Seek>(items: &[u8], writer: &mut W, endian: Endian, args: &()) -> (r: BinResult<()>) {
        proof {
            lemma_bytes_write_many(items@, endian);
        }
        match writer.write_all(items) {
            Ok(()) => Ok(()),
            Err(e) => Err(Error::Io(e)),
        }
    }
}

impl WriteMany for i8 {
    /// One bulk write of the bytes' bit patterns.
    fn write_many<W: Write + Seek>(items: &[i8], writer: &mut W, endian: Endian, args: &()) -> (r: BinResult<()>) {
        let bytes = signed_bytes(items);
        proof {
            lemma_signed_write_many(items@, bytes@, endian);
        }
        match writer.write_all(bytes) {
            Ok(()) => Ok(()),
            Err(e) => Err(Error::Io(e)),
        }
    }
}

impl BinWrite for bool {
    type Args = ();

    open spec fn spec_write(&self, endian: Endian, args: ()) -> Seq<u8> {
        seq![if *self { 1u8 } else { 0u8 }]
    }

    /// One byte: 1 for true, 0 for false.
    fn write_options<W: Write + Seek>(&self, writer: &mut W, endian: Endian, args: &()) -> (r: BinResult<()>) {
        let byte: u8 = if *self { 1 } else { 0 };
        let bytes: Vec<u8> = vec![byte];
        assert(bytes@ =~= self.spec_write(endian, *args));
        match writer.write_all(bytes.as_slice()) {
            Ok(()) => Ok(()),
            Err(e) => Err(Error::Io(e)),
        }
    }
}

impl WriteMany for bool {
}

impl BinWrite for () {
    type Args = ();

    open spec fn spec_write(&self, endian: Endian, args: ()) -> Seq<u8> {
        Seq::empty()
    }

    /// Writes nothing.
    fn write_options<W: Write + Seek>(&self, writer: &mut W, endian: Endian, args: &()) -> (r: BinResult<()>) {
        Ok(())
    }
}

impl WriteMany for () {
}

/// The items in order, each with the collection's arguments.
impl<T: WriteMany> BinWrite for Vec<T> {
    type Args = T::Args;

    open spec fn spec_write(&self, endian: Endian, args: T::Args) -> Seq<u8> {
        spec_write_many::<T>(self@, endian, args)
    }

    fn write_options<W: Write + Seek>(&self, writer: &mut W, endian: Endian, args: &T::Args) -> (r: BinResult<()>) {
        T::write_many(self.as_slice(), writer, endian, args)
    }
}

impl<T: WriteMany> WriteMany for Vec<T> {
}

/// The items in order, each with the array's arguments.
impl<T: WriteMany, const N: usize> BinWrite for [T; N] {
    type Args = T::Args;

    open spec fn spec_write(&self, endian: Endian, args: T::Args) -> Seq<u8> {
        spec_write_many::<T>(self@, endian, args)
    }

    fn write_options<W: Write + Seek>(&self, writer: &mut W, endian: Endian, args: &T::Args) -> (r: BinResult<()>) {
        T::write_many(vstd::array::array_as_slice(self), writer, endian, args)
    }
}

impl<T: WriteMany, const N: usize> WriteMany for [T; N] {
}

/// A boxed value is its content.
impl<T: BinWrite> BinWrite for Box<T> {
    type Args = T::Args;

    open spec fn spec_write(&self, endian: Endian, args: T::Args) -> Seq<u8> {
        (**self).spec_write(endian, args)
    }

    fn write_options<W: Write + Seek>(&self, writer: &mut W, endian: Endian, args: &T::Args) -> (r: BinResult<()>) {
        (**self).write_options(writer, endian, args)
    }
}

impl<T: BinWrite> WriteMany for Box<T> {
}

/// A borrowed value is what it points to.
impl<T: BinWrite> BinWrite for &T {
    type Args = T::Args;

    open spec fn spec_write(&self, endian: Endian, args: T::Args) -> Seq<u8> {
        (**self).spec_write(endian, args)
    }

    fn write_options<W: Write + Seek>(&self, writer: &mut W, endian: Endian, args: &T::Args) -> (r: BinResult<()>) {
        (**self).write_options(writer, endian, args)
    }
}

/// A present value is its content; an absent one writes nothing.
impl<T: BinWrite> BinWrite for Option<T> {
    type Args = T::Args;

    open spec fn spec_write(&self, endian: Endian, args: T::Args) -> Seq<u8> {
        match self {
            Some(v) => v.spec_write(endian, args),
            None => Seq::empty(),
        }
    }

    fn write_options<W: Write + Seek>(&self, writer: &mut W, endian: Endian, args: &T::Args) -> (r: BinResult<()>) {
        match self {
            Some(inner) => inner.write_options(writer, endian, args),
            None => Ok(()),
        }
    }
}

impl<T: BinWrite> WriteMany for Option<T> {
}

/// Two fields in order, sharing the arguments.
impl<X, A: BinWrite<Args = X>, B: BinWrite<Args = X>> BinWrite for (A, B) {
    type Args = X;

    open spec fn spec_write(&self, endian: Endian, args: X) -> Seq<u8> {
        self.0.spec_write(endian, args) + self.1.spec_write(endian, args)
    }

    fn write_options<W: Write + Seek>(&self, writer: &mut W, endian: Endian, args: &X) -> (r: BinResult<()>) {
        let (a, b) = self;
        a.write_options(writer, endian, args)?;
        b.write_options(writer, endian, args)?;
        proof {
            lemma_overwrite_concat(
                old(writer).content(),
                old(writer).offset(),
                a.spec_write(endian, *args),
                b.spec_write(endian, *args),
            );
        }
        Ok(())
    }
}

impl<X, A: BinWrite<Args = X>, B: BinWrite<Args = X>> WriteMany for (A, B) {
}

/// Three fields in order, sharing the arguments.
impl<X, A: BinWrite<Args = X>, B: BinWrite<Args = X>, C: BinWrite<Args = X>> BinWrite for (A, B, C) {
    type Args = X;

    open spec fn spec_write(&self, endian: Endian, args: X) -> Seq<u8> {
        self.0.spec_write(endian, args) + self.1.spec_write(endian, args) + self.2.spec_write(endian, args)
    }

    fn write_options<W: Write + Seek>(&self, writer: &mut W, endian: Endian, args: &X) -> (r: BinResult<()>) {
        let (a, b, c) = self;
        a.write_options(writer, endian, args)?;
        b.write_options(writer, endian, args)?;
        proof {
            lemma_overwrite_concat(
                old(writer).content(),
                old(writer).offset(),
                a.spec_write(endian, *args),
                b.spec_write(endian, *args),
            );
        }
        c.write_options(writer, endian, args)?;
        proof {
            lemma_overwrite_concat(
                old(writer).content(),
                old(writer).offset(),
                a.spec_write(endian, *args) + b.spec_write(endian, *args),
                c.spec_write(endian, *args),
            );
        }
        Ok(())
    }
}

impl<X, A: BinWrite<Args = X>, B: BinWrite<Args = X>, C: BinWrite<Args = X>> WriteMany for (A, B, C) {
}

/// Encoding called on the stream.
pub trait BinWriterExt: Write + Seek + Sized {
    /// Encodes `value` in byte order `endian` with its default arguments.
    fn write_type<T: BinWrite>(&mut self, value: &T, endian: Endian) -> (r: BinResult<()>)
        where
            T::Args: Required,
        ensures
            !old(self).restarts() && r is Ok ==> final(self).content() == overwrite(
                old(self).content(),
                old(self).offset(),
                value.spec_write(endian, T::Args::spec_args()),
            ),
            old(self).faultless() && !old(self).restarts()
                && old(self).offset() + value.spec_write(endian, T::Args::spec_args()).len()
                <= usize::MAX ==> r is Ok,
    {
        let args = T::Args::args();
        value.write_options(self, endian, &args)
    }

    /// Encodes `value` big-endian with its default arguments.
    fn write_be<T: BinWrite>(&mut self, value: &T) -> (r: BinResult<()>)
        where
            T::Args: Required,
        ensures
            !old(self).restarts() && r is Ok ==> final(self).content() == overwrite(
                old(self).content(),
                old(self).offset(),
                value.spec_write(Endian::Big, T::Args::spec_args()),
            ),
            old(self).faultless() && !old(self).restarts()
                && old(self).offset() + value.spec_write(Endian::Big, T::Args::spec_args()).len()
                <= usize::MAX ==> r is Ok,
    {
        self.write_type(value, Endian::Big)
    }

    /// Encodes `value` little-endian with its default arguments.
    fn write_le<T: BinWrite>(&mut self, value: &T) -> (r: BinResult<()>)
        where
            T::Args: Required,
        ensures
            !old(self).restarts() && r is Ok ==> final(self).content() == overwrite(
                old(self).content(),
                old(self).offset(),
                value.spec_write(Endian::Little, T::Args::spec_args()),
            ),
            old(self).faultless() && !old(self).restarts()
                && old(self).offset() + value.spec_write(Endian::Little, T::Args::spec_args()).len()
                <= usize::MAX ==> r is Ok,
    {
        self.write_type(value, Endian::Little)
    }

    /// Encodes `value` in the machine's own byte order with its default arguments.
    fn write_ne<T: BinWrite>(&mut self, value: &T) -> (r: BinResult<()>)
        where
            T::Args: Required,
        ensures
            exists|e: Endian| #![trigger value.spec_write(e, T::Args::spec_args())]
                {
                    &&& (!old(self).restarts() && r is Ok ==> final(self).content() == overwrite(
                        old(self).content(),
                        old(self).offset(),
                        value.spec_write(e, T::Args::spec_args()),
                    ))
                    &&& (old(self).faultless() && !old(self).restarts() && old(self).offset() + value.spec_write(
                        e,
                        T::Args::spec_args(),
                    ).len() <= usize::MAX ==> r is Ok)
                },
    {
        let e = native();
        let r = self.write_type(value, e);
        assert(!old(self).restarts() && r is Ok ==> final(self).content() == overwrite(
            old(self).content(),
            old(self).offset(),
            value.spec_write(e, T::Args::spec_args()),
        ));
        assert(old(self).faultless() && !old(self).restarts() && old(self).offset() + value.spec_write(
            e,
            T::Args::spec_args(),
        ).len() <= usize::MAX ==> r is Ok);
        r
    }

    /// Encodes `value` in byte order `endian` with `args`.
    fn write_type_args<T: BinWrite>(&mut self, value: &T, endian: Endian, args: &T::Args) -> (r: BinResult<()>)
        ensures
            !old(self).restarts() && r is Ok ==> final(self).content() == overwrite(
                old(self).content(),
                old(self).offset(),
                value.spec_write(endian, *args),
            ),
            old(self).faultless() && !old(self).restarts()
                && old(self).offset() + value.spec_write(endian, *args).len()
                <= usize::MAX ==> r is Ok,
    {
        value.write_options(self, endian, args)
    }

    /// Encodes `value` big-endian with `args`.
    fn write_be_args<T: BinWrite>(&mut self, value: &T, args: &T::Args) -> (r: BinResult<()>)
        ensures
            !old(self).restarts() && r is Ok ==> final(self).content() == overwrite(
                old(self).content(),
                old(self).offset(),
                value.spec_write(Endian::Big, *args),
            ),
            old(self).faultless() && !old(self).restarts()
                && old(self).offset() + value.spec_write(Endian::Big, *args).len()
                <= usize::MAX ==> r is Ok,
    {
        self.write_type_args(value, Endian::Big, args)
    }

    /// Encodes `value` little-endian with `args`.
    fn write_le_args<T: BinWrite>(&mut self, value: &T, args: &T::Args) -> (r: BinResult<()>)
        ensures
            !old(self).restarts() && r is Ok ==> final(self).content() == overwrite(
                old(self).content(),
                old(self).offset(),
                value.spec_write(Endian::Little, *args),
            ),
            old(self).faultless() && !old(self).restarts()
                && old(self).offset() + value.spec_write(Endian::Little, *args).len()
                <= usize::MAX ==> r is Ok,
    {
        self.write_type_args(value, Endian::Little, args)
    }

    /// Encodes `value` in the machine's own byte order with `args`.
    fn write_ne_args<T: BinWrite>(&mut self, value: &T, args: &T::Args) -> (r: BinResult<()>)
        ensures
            exists|e: Endian| #![trigger value.spec_write(e, *args)]
                {
                    &&& (!old(self).restarts() && r is Ok ==> final(self).content() == overwrite(
                        old(self).content(),
                        old(self).offset(),
                        value.spec_write(e, *args),
                    ))
                    &&& (old(self).faultless() && !old(self).restarts() && old(self).offset() + value.spec_write(
                        e,
                        *args,
                    ).len() <= usize::MAX ==> r is Ok)
                },
    {
        let e = native();
        let r = self.write_type_args(value, e, args);
        assert(!old(self).restarts() && r is Ok ==> final(self).content() == overwrite(
            old(self).content(),
            old(self).offset(),
            value.spec_write(e, *args),
        ));
        assert(old(self).faultless() && !old(self).restarts() && old(self).offset() + value.spec_write(
            e,
            *args,
        ).len() <= usize::MAX ==> r is Ok);
        r
    }
}

impl<W: Write + Seek> BinWriterExt for W {
}

} // verus!
