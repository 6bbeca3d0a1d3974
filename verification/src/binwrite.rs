//! Writing values to a stream.

use crate::endian::Endian;
use crate::error::{failure_of, BinResult, Failure};
use crate::ints::{encode, int_bytes};
use crate::io::{Cursor, Stream};
use vstd::prelude::*;

verus! {

/// What a write leaves behind: the stream after it, and the failure that
/// ended it, if one did.
pub struct Written {
    pub stream: Stream,
    pub failure: Option<Failure>,
}

/// The outcome of writing `bytes` to `stream`: they are put at the position,
/// unless the end of them could not be addressed.
pub open spec fn put_bytes(stream: Stream, bytes: Seq<u8>) -> Written {
    if stream.pos + bytes.len() <= usize::MAX {
        Written { stream: stream.put(bytes), failure: None }
    } else {
        Written {
            stream,
            failure: Some(Failure::LeafCodecError(crate::error::LeafError::PositionOverflow)),
        }
    }
}

/// A type whose values can be written to a stream.
pub trait BinWrite {
    /// The arguments that a write of this type needs; `()` where it needs
    /// none.
    type Args;

    /// What writing `self` to `stream` does, with the most significant byte
    /// of each number first where `big` holds.
    spec fn written(&self, stream: Stream, big: bool, args: Self::Args) -> Written;

    /// Writes `self` with default options and default arguments.
    fn write_to(&self, writer: &mut Cursor) -> (result: BinResult<()>) where Self::Args: Default
        ensures
            exists|big: bool, args: Self::Args|
                call_ensures(<Self::Args as Default>::default, (), args) && (#[trigger] self.written(
                    old(writer)@,
                    big,
                    args,
                )) == (Written { stream: final(writer)@, failure: failure_of(result) }),
    {
        self.write_options(writer, &WriteOptions::default(), Self::Args::default())
    }

    /// Writes `self` with default options.
    fn write_with_args(&self, writer: &mut Cursor, args: Self::Args) -> (result: BinResult<()>)
        ensures
            exists|big: bool| (#[trigger] self.written(old(writer)@, big, args)) == (Written {
                stream: final(writer)@,
                failure: failure_of(result),
            }),
    {
        self.write_options(writer, &WriteOptions::default(), args)
    }

    /// Writes `self` under `options`, with `args`.
    fn write_options(&self, writer: &mut Cursor, options: &WriteOptions, args: Self::Args) -> (result:
        BinResult<()>)
        ensures
            exists|big: bool|
                options@.admits(big) && (#[trigger] self.written(old(writer)@, big, args)) == (Written {
                    stream: final(writer)@,
                    failure: failure_of(result),
                }),
    ;
}

/// The context that is handed down through every write.
#[derive(Clone, Copy, Debug)]
pub struct WriteOptions {
    endian: Endian,
}

impl View for WriteOptions {
    type V = Endian;

    closed spec fn view(&self) -> Endian {
        self.endian
    }
}

impl Default for WriteOptions {
    fn default() -> (options: WriteOptions)
        ensures
            options@ == Endian::Native,
    {
        WriteOptions { endian: Endian::Native }
    }
}

impl WriteOptions {
    /// Options with the given byte order.
    pub fn new(endian: Endian) -> (options: WriteOptions)
        ensures
            options@ == endian,
    {
        WriteOptions { endian }
    }

    /// The byte order.
    pub fn endian(&self) -> (endian: Endian)
        ensures
            endian == self@,
    {
        self.endian
    }

    /// The same options with the byte order replaced.
    pub fn with_endian(self, endian: Endian) -> (options: WriteOptions)
        ensures
            options@ == endian,
    {
        WriteOptions { endian }
    }
}

/// Shorthands for writing a value to a stream.
pub trait BinWriterExt: Sized {
    /// The stream that the writer stands for.
    spec fn stream(&self) -> Stream;

    /// Writes `value` in the given byte order, with default arguments.
    fn write_type<T: BinWrite>(&mut self, value: &T, endian: Endian) -> (result: BinResult<()>) where
        T::Args: Default,

        ensures
            exists|big: bool, args: T::Args|
                endian.admits(big) && call_ensures(<T::Args as Default>::default, (), args) && (
                #[trigger] value.written(old(self).stream(), big, args)) == (Written {
                    stream: final(self).stream(),
                    failure: failure_of(result),
                }),
    ;

    /// Writes `value` most significant byte first, with default arguments.
    fn write_be<T: BinWrite>(&mut self, value: &T) -> (result: BinResult<()>) where T::Args: Default
        ensures
            exists|args: T::Args|
                call_ensures(<T::Args as Default>::default, (), args) && (#[trigger] value.written(
                    old(self).stream(),
                    true,
                    args,
                )) == (Written { stream: final(self).stream(), failure: failure_of(result) }),
    ;

    /// Writes `value` least significant byte first, with default arguments.
    fn write_le<T: BinWrite>(&mut self, value: &T) -> (result: BinResult<()>) where T::Args: Default
        ensures
            exists|args: T::Args|
                call_ensures(<T::Args as Default>::default, (), args) && (#[trigger] value.written(
                    old(self).stream(),
                    false,
                    args,
                )) == (Written { stream: final(self).stream(), failure: failure_of(result) }),
    ;

    /// Writes `value` in the machine's byte order, with default arguments.
    fn write_ne<T: BinWrite>(&mut self, value: &T) -> (result: BinResult<()>) where T::Args: Default
        ensures
            exists|big: bool, args: T::Args|
                call_ensures(<T::Args as Default>::default, (), args) && (#[trigger] value.written(
                    old(self).stream(),
                    big,
                    args,
                )) == (Written { stream: final(self).stream(), failure: failure_of(result) }),
    ;

    /// Writes `value` in the given byte order, with `args`.
    fn write_type_args<T: BinWrite>(&mut self, value: &T, endian: Endian, args: T::Args) -> (result:
        BinResult<()>)
        ensures
            exists|big: bool|
                endian.admits(big) && (#[trigger] value.written(old(self).stream(), big, args))
                    == (Written { stream: final(self).stream(), failure: failure_of(result) }),
    ;

    /// Writes `value` most significant byte first, with `args`.
    fn write_be_args<T: BinWrite>(&mut self, value: &T, args: T::Args) -> (result: BinResult<()>)
        ensures
            value.written(old(self).stream(), true, args) == (Written {
                stream: final(self).stream(),
                failure: failure_of(result),
            }),
    ;

    /// Writes `value` least significant byte first, with `args`.
    fn write_le_args<T: BinWrite>(&mut self, value: &T, args: T::Args) -> (result: BinResult<()>)
        ensures
            value.written(old(self).stream(), false, args) == (Written {
                stream: final(self).stream(),
                failure: failure_of(result),
            }),
    ;

    /// Writes `value` in the machine's byte order, with `args`.
    fn write_ne_args<T: BinWrite>(&mut self, value: &T, args: T::Args) -> (result: BinResult<()>)
        ensures
            exists|big: bool| (#[trigger] value.written(old(self).stream(), big, args)) == (Written {
                stream: final(self).stream(),
                failure: failure_of(result),
            }),
    ;
}

impl BinWriterExt for Cursor {
    open spec fn stream(&self) -> Stream {
        self@
    }

    fn write_type<T: BinWrite>(&mut self, value: &T, endian: Endian) -> (result: BinResult<()>) where
        T::Args: Default,
     {
        self.write_type_args(value, endian, T::Args::default())
    }

    fn write_be<T: BinWrite>(&mut self, value: &T) -> (result: BinResult<()>) where T::Args: Default {
        self.write_type(value, Endian::Big)
    }

    fn write_le<T: BinWrite>(&mut self, value: &T) -> (result: BinResult<()>) where T::Args: Default {
        self.write_type(value, Endian::Little)
    }

    fn write_ne<T: BinWrite>(&mut self, value: &T) -> (result: BinResult<()>) where T::Args: Default {
        self.write_type(value, Endian::Native)
    }

    fn write_type_args<T: BinWrite>(&mut self, value: &T, endian: Endian, args: T::Args) -> (result:
        BinResult<()>) {
        let options = WriteOptions::new(endian);
        let result = T::write_options(value, self, &options, args);
        proof {
            let big = choose|big: bool|
                options@.admits(big) && (#[trigger] value.written(old(self)@, big, args))
                    == (Written { stream: self@, failure: failure_of(result) });
            assert(endian.admits(big));
            assert(value.written(old(self).stream(), big, args) == (Written {
                stream: self.stream(),
                failure: failure_of(result),
            }));
        }
        result
    }

    fn write_be_args<T: BinWrite>(&mut self, value: &T, args: T::Args) -> (result: BinResult<()>) {
        self.write_type_args(value, Endian::Big, args)
    }

    fn write_le_args<T: BinWrite>(&mut self, value: &T, args: T::Args) -> (result: BinResult<()>) {
        self.write_type_args(value, Endian::Little, args)
    }

    fn write_ne_args<T: BinWrite>(&mut self, value: &T, args: T::Args) -> (result: BinResult<()>) {
        self.write_type_args(value, Endian::Native, args)
    }
}

impl BinWrite for u8 {
    type Args = ();

    open spec fn written(&self, stream: Stream, big: bool, args: ()) -> Written {
        put_bytes(stream, int_bytes(*self as nat, 1, big))
    }

    fn write_options(&self, writer: &mut Cursor, options: &WriteOptions, args: ()) -> (result:
        BinResult<()>) {
        let big = options.endian().is_big();
        let bytes = encode(*self as u64, 1, big);
        proof {
            crate::ints::lemma_int_bytes_len(*self as nat, 1, big);
        }
        let result = writer.write_all(bytes.as_slice());
        assert(self.written(old(writer)@, big, args) == (Written {
            stream: writer@,
            failure: failure_of(result),
        }));
        result
    }
}

impl BinWrite for u16 {
    type Args = ();

    open spec fn written(&self, stream: Stream, big: bool, args: ()) -> Written {
        put_bytes(stream, int_bytes(*self as nat, 2, big))
    }

    fn write_options(&self, writer: &mut Cursor, options: &WriteOptions, args: ()) -> (result:
        BinResult<()>) {
        let big = options.endian().is_big();
        let bytes = encode(*self as u64, 2, big);
        proof {
            crate::ints::lemma_int_bytes_len(*self as nat, 2, big);
        }
        let result = writer.write_all(bytes.as_slice());
        assert(self.written(old(writer)@, big, args) == (Written {
            stream: writer@,
            failure: failure_of(result),
        }));
        result
    }
}

impl BinWrite for u32 {
    type Args = ();

    open spec fn written(&self, stream: Stream, big: bool, args: ()) -> Written {
        put_bytes(stream, int_bytes(*self as nat, 4, big))
    }

    fn write_options(&self, writer: &mut Cursor, options: &WriteOptions, args: ()) -> (result:
        BinResult<()>) {
        let big = options.endian().is_big();
        let bytes = encode(*self as u64, 4, big);
        proof {
            crate::ints::lemma_int_bytes_len(*self as nat, 4, big);
        }
        let result = writer.write_all(bytes.as_slice());
        assert(self.written(old(writer)@, big, args) == (Written {
            stream: writer@,
            failure: failure_of(result),
        }));
        result
    }
}

impl BinWrite for u64 {
    type Args = ();

    open spec fn written(&self, stream: Stream, big: bool, args: ()) -> Written {
        put_bytes(stream, int_bytes(*self as nat, 8, big))
    }

    fn write_options(&self, writer: &mut Cursor, options: &WriteOptions, args: ()) -> (result:
        BinResult<()>) {
        let big = options.endian().is_big();
        let bytes = encode(*self as u64, 8, big);
        proof {
            crate::ints::lemma_int_bytes_len(*self as nat, 8, big);
        }
        let result = writer.write_all(bytes.as_slice());
        assert(self.written(old(writer)@, big, args) == (Written {
            stream: writer@,
            failure: failure_of(result),
        }));
        result
    }
}

} // verus!
