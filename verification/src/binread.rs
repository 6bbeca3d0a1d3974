//! Reading values from a stream.

use crate::endian::Endian;
use crate::error::{BinResult, Error, Failure, LeafError};
use crate::ints::{bytes_int, decode};
use crate::io::{Cursor, Stream};
use vstd::prelude::*;

verus! {

/// How a read ends: where the stream stands, and the value or the failure.
pub struct Outcome<T> {
    pub pos: nat,
    pub result: Result<T, Failure>,
}

/// A read that gave `value` and stands at `pos`.
pub open spec fn done<T>(pos: nat, value: T) -> Outcome<T> {
    Outcome { pos, result: Ok(value) }
}

/// A read that failed and stands at `pos`.
pub open spec fn failed<T>(pos: nat, failure: Failure) -> Outcome<T> {
    Outcome { pos, result: Err(failure) }
}

/// The outcome that an executable read reports.
pub open spec fn reported<T>(pos: nat, result: Result<T, Error>) -> Outcome<T> {
    match result {
        Ok(value) => done(pos, value),
        Err(e) => failed(pos, e@),
    }
}

/// Reading an unsigned number of `width` bytes at `pos`: the number that the
/// bytes spell, or the end of the stream, at which the read stays where it
/// was.
pub open spec fn read_number(data: Seq<u8>, pos: nat, width: nat, big: bool) -> Outcome<nat> {
    match (Stream { data, pos }).peek(width) {
        Some(bytes) => done(pos + width, bytes_int(bytes, big)),
        None => failed(pos, Failure::LeafCodecError(LeafError::UnexpectedEof)),
    }
}

/// Reads an unsigned number of `width` bytes.
pub fn read_uint(reader: &mut Cursor, width: usize, big: bool) -> (result: BinResult<u64>)
    requires
        width <= 8,
    ensures
        final(reader)@.data == old(reader)@.data,
        match read_number(old(reader)@.data, old(reader)@.pos, width as nat, big).result {
            Ok(n) => result == Ok::<u64, Error>(n as u64) && n <= u64::MAX,
            Err(f) => result matches Err(e) && e@ == f,
        },
        final(reader)@.pos == read_number(
            old(reader)@.data,
            old(reader)@.pos,
            width as nat,
            big,
        ).pos,
{
    match reader.read_exact(width) {
        Ok(bytes) => {
            proof {
                crate::ints::lemma_bytes_int_fits(bytes@, big);
                crate::ints::lemma_limits();
                reveal_with_fuel(crate::ints::limit, 10);
            }
            Ok(decode(bytes.as_slice(), big))
        },
        Err(e) => Err(e),
    }
}

/// The context that is handed down through every read.
#[derive(Clone, Copy, Debug)]
pub struct ReadOptions {
    endian: Endian,
}

impl View for ReadOptions {
    type V = Endian;

    closed spec fn view(&self) -> Endian {
        self.endian
    }
}

impl Default for ReadOptions {
    fn default() -> (options: ReadOptions)
        ensures
            options@ == Endian::Native,
    {
        ReadOptions { endian: Endian::Native }
    }
}

impl ReadOptions {
    /// Options with the given byte order.
    pub fn new(endian: Endian) -> (options: ReadOptions)
        ensures
            options@ == endian,
    {
        ReadOptions { endian }
    }

    /// The byte order.
    pub fn endian(&self) -> (endian: Endian)
        ensures
            endian == self@,
    {
        self.endian
    }

    /// The same options with the byte order replaced.
    pub fn with_endian(self, endian: Endian) -> (options: ReadOptions)
        ensures
            options@ == endian,
    {
        ReadOptions { endian }
    }
}

/// A type whose values can be read from a stream.
pub trait BinRead: Sized {
    /// The arguments that a read of this type needs; `()` where it needs
    /// none.
    type Args;

    /// What reading a value of this type from `data` at `pos` gives, with the
    /// most significant byte of each number first where `big` holds.
    spec fn parsed(data: Seq<u8>, pos: nat, big: bool, args: Self::Args) -> Outcome<Self>;

    /// Reads a value with default options and default arguments.
    fn read(reader: &mut Cursor) -> (result: BinResult<Self>) where Self::Args: Default
        ensures
            final(reader)@.data == old(reader)@.data,
            exists|big: bool, args: Self::Args|
                call_ensures(<Self::Args as Default>::default, (), args) && (#[trigger] Self::parsed(
                    old(reader)@.data,
                    old(reader)@.pos,
                    big,
                    args,
                )) == reported(final(reader)@.pos, result),
    {
        Self::read_options(reader, &ReadOptions::default(), Self::Args::default())
    }

    /// Reads a value with default options.
    fn read_args(reader: &mut Cursor, args: Self::Args) -> (result: BinResult<Self>)
        ensures
            final(reader)@.data == old(reader)@.data,
            exists|big: bool| (#[trigger] Self::parsed(old(reader)@.data, old(reader)@.pos, big, args))
                == reported(final(reader)@.pos, result),
    {
        Self::read_options(reader, &ReadOptions::default(), args)
    }

    /// Reads a value under `options`, with `args`.
    fn read_options(reader: &mut Cursor, options: &ReadOptions, args: Self::Args) -> (result:
        BinResult<Self>)
        ensures
            final(reader)@.data == old(reader)@.data,
            exists|big: bool|
                options@.admits(big) && (#[trigger] Self::parsed(
                    old(reader)@.data,
                    old(reader)@.pos,
                    big,
                    args,
                )) == reported(final(reader)@.pos, result),
    ;
}

/// Shorthands for reading a value from a stream.
pub trait BinReaderExt: Sized {
    /// The stream that the reader stands for.
    spec fn source(&self) -> Stream;

    /// Reads a `T` in the given byte order, with default arguments.
    fn read_type<T: BinRead>(&mut self, endian: Endian) -> (result: BinResult<T>) where
        T::Args: Default,

        ensures
            final(self).source().data == old(self).source().data,
            exists|big: bool, args: T::Args|
                endian.admits(big) && call_ensures(<T::Args as Default>::default, (), args) && (
                #[trigger] T::parsed(old(self).source().data, old(self).source().pos, big, args))
                    == reported(final(self).source().pos, result),
    ;

    /// Reads a `T` most significant byte first, with default arguments.
    fn read_be<T: BinRead>(&mut self) -> (result: BinResult<T>) where T::Args: Default
        ensures
            final(self).source().data == old(self).source().data,
            exists|args: T::Args|
                call_ensures(<T::Args as Default>::default, (), args) && (#[trigger] T::parsed(
                    old(self).source().data,
                    old(self).source().pos,
                    true,
                    args,
                )) == reported(final(self).source().pos, result),
    ;

    /// Reads a `T` least significant byte first, with default arguments.
    fn read_le<T: BinRead>(&mut self) -> (result: BinResult<T>) where T::Args: Default
        ensures
            final(self).source().data == old(self).source().data,
            exists|args: T::Args|
                call_ensures(<T::Args as Default>::default, (), args) && (#[trigger] T::parsed(
                    old(self).source().data,
                    old(self).source().pos,
                    false,
                    args,
                )) == reported(final(self).source().pos, result),
    ;

    /// Reads a `T` in the machine's byte order, with default arguments.
    fn read_ne<T: BinRead>(&mut self) -> (result: BinResult<T>) where T::Args: Default
        ensures
            final(self).source().data == old(self).source().data,
            exists|big: bool, args: T::Args|
                call_ensures(<T::Args as Default>::default, (), args) && (#[trigger] T::parsed(
                    old(self).source().data,
                    old(self).source().pos,
                    big,
                    args,
                )) == reported(final(self).source().pos, result),
    ;

    /// Reads a `T` in the given byte order, with `args`.
    fn read_type_args<T: BinRead>(&mut self, endian: Endian, args: T::Args) -> (result: BinResult<T>)
        ensures
            final(self).source().data == old(self).source().data,
            exists|big: bool|
                endian.admits(big) && (#[trigger] T::parsed(
                    old(self).source().data,
                    old(self).source().pos,
                    big,
                    args,
                )) == reported(final(self).source().pos, result),
    ;
}

impl BinReaderExt for Cursor {
    open spec fn source(&self) -> Stream {
        self@
    }

    fn read_type<T: BinRead>(&mut self, endian: Endian) -> (result: BinResult<T>) where
        T::Args: Default,
     {
        self.read_type_args(endian, T::Args::default())
    }

    fn read_be<T: BinRead>(&mut self) -> (result: BinResult<T>) where T::Args: Default {
        self.read_type(Endian::Big)
    }

    fn read_le<T: BinRead>(&mut self) -> (result: BinResult<T>) where T::Args: Default {
        self.read_type(Endian::Little)
    }

    fn read_ne<T: BinRead>(&mut self) -> (result: BinResult<T>) where T::Args: Default {
        self.read_type(Endian::Native)
    }

    fn read_type_args<T: BinRead>(&mut self, endian: Endian, args: T::Args) -> (result: BinResult<T>) {
        let options = ReadOptions::new(endian);
        let result = T::read_options(self, &options, args);
        proof {
            let big = choose|big: bool|
                options@.admits(big) && (#[trigger] T::parsed(old(self)@.data, old(self)@.pos, big, args))
                    == reported(self@.pos, result);
            assert(endian.admits(big));
            assert(T::parsed(old(self).source().data, old(self).source().pos, big, args)
                == reported(self.source().pos, result));
        }
        result
    }
}

/// The outcome of reading a number, with the number turned into a `T`.
pub open spec fn number_as<T>(read: Outcome<nat>, make: spec_fn(nat) -> T) -> Outcome<T> {
    match read.result {
        Ok(n) => done(read.pos, make(n)),
        Err(f) => failed(read.pos, f),
    }
}

impl BinRead for u8 {
    type Args = ();

    open spec fn parsed(data: Seq<u8>, pos: nat, big: bool, args: ()) -> Outcome<u8> {
        number_as(read_number(data, pos, 1, big), |n: nat| n as u8)
    }

    fn read_options(reader: &mut Cursor, options: &ReadOptions, args: ()) -> (result: BinResult<u8>) {
        let big = options.endian().is_big();
        let ghost before = reader@;
        let result = match read_uint(reader, 1, big) {
            Ok(n) => {
                proof {
                    let bytes = before.peek(1)->0;
                    crate::ints::lemma_bytes_int_fits(bytes, big);
                    crate::ints::lemma_limits();
                }
                Ok(n as u8)
            },
            Err(e) => Err(e),
        };
        assert(Self::parsed(before.data, before.pos, big, args) == reported(reader@.pos, result));
        result
    }
}

impl BinRead for u16 {
    type Args = ();

    open spec fn parsed(data: Seq<u8>, pos: nat, big: bool, args: ()) -> Outcome<u16> {
        number_as(read_number(data, pos, 2, big), |n: nat| n as u16)
    }

    fn read_options(reader: &mut Cursor, options: &ReadOptions, args: ()) -> (result: BinResult<u16>) {
        let big = options.endian().is_big();
        let ghost before = reader@;
        let result = match read_uint(reader, 2, big) {
            Ok(n) => {
                proof {
                    let bytes = before.peek(2)->0;
                    crate::ints::lemma_bytes_int_fits(bytes, big);
                    crate::ints::lemma_limits();
                }
                Ok(n as u16)
            },
            Err(e) => Err(e),
        };
        assert(Self::parsed(before.data, before.pos, big, args) == reported(reader@.pos, result));
        result
    }
}

impl BinRead for u32 {
    type Args = ();

    open spec fn parsed(data: Seq<u8>, pos: nat, big: bool, args: ()) -> Outcome<u32> {
        number_as(read_number(data, pos, 4, big), |n: nat| n as u32)
    }

    fn read_options(reader: &mut Cursor, options: &ReadOptions, args: ()) -> (result: BinResult<u32>) {
        let big = options.endian().is_big();
        let ghost before = reader@;
        let result = match read_uint(reader, 4, big) {
            Ok(n) => {
                proof {
                    let bytes = before.peek(4)->0;
                    crate::ints::lemma_bytes_int_fits(bytes, big);
                    crate::ints::lemma_limits();
                }
                Ok(n as u32)
            },
            Err(e) => Err(e),
        };
        assert(Self::parsed(before.data, before.pos, big, args) == reported(reader@.pos, result));
        result
    }
}

impl BinRead for u64 {
    type Args = ();

    open spec fn parsed(data: Seq<u8>, pos: nat, big: bool, args: ()) -> Outcome<u64> {
        number_as(read_number(data, pos, 8, big), |n: nat| n as u64)
    }

    fn read_options(reader: &mut Cursor, options: &ReadOptions, args: ()) -> (result: BinResult<u64>) {
        let big = options.endian().is_big();
        let ghost before = reader@;
        let result = match read_uint(reader, 8, big) {
            Ok(n) => Ok(n),
            Err(e) => Err(e),
        };
        assert(Self::parsed(before.data, before.pos, big, args) == reported(reader@.pos, result));
        result
    }
}

} // verus!
