//! Reading the arguments that a typesetting plugin is handed as bytes.
//!
//! A number comes as the eight bytes of a 64-bit integer, lowest byte
//! first. A truth value comes as a number that is not 0. A size comes as a
//! number, and a negative number stands for no limit.

use vstd::prelude::*;
use vstd::utf8::{decode_utf8, valid_utf8};
use crate::buffer::Buffer;
use crate::color::Rgba;
use crate::dither::{algorithm_named, dithered, DitherAlgorithm};

verus! {

/// Why the arguments of a plugin call cannot be read.
#[derive(Clone, Copy, Debug, PartialEq, Eq, Structural)]
pub enum PluginError {
    /// A number does not have eight bytes.
    NotEightBytes,
    /// A size does not fit into 32 bits.
    SizeTooLarge,
    /// A text is no UTF-8.
    NotUtf8,
    /// There is no dithering algorithm of that name.
    UnknownAlgorithm,
}

/// The number that the bytes spell, lowest byte first, not negative.
pub open spec fn le_value(bytes: Seq<u8>) -> int
    decreases bytes.len(),
{
    if bytes.len() == 0 {
        0
    } else {
        bytes[0] + 256 * le_value(bytes.drop_first())
    }
}

/// The number between `-2^63` and `2^63` that `v` stands for in two's
/// complement.
pub open spec fn as_signed(v: int) -> int {
    if v >= 0x8000_0000_0000_0000 {
        v - 0x1_0000_0000_0000_0000
    } else {
        v
    }
}

/// The number that the eight bytes spell, or the reason why there is none.
pub open spec fn number_of(bytes: Seq<u8>) -> Result<int, PluginError> {
    if bytes.len() != 8 {
        Err(PluginError::NotEightBytes)
    } else {
        Ok(as_signed(le_value(bytes)))
    }
}

/// The size that the bytes spell: a negative number is no limit.
pub open spec fn size_of(bytes: Seq<u8>) -> Result<Option<u32>, PluginError> {
    match number_of(bytes) {
        Err(e) => Err(e),
        Ok(n) => if n < 0 {
            Ok(None)
        } else if n > u32::MAX {
            Err(PluginError::SizeTooLarge)
        } else {
            Ok(Some(n as u32))
        },
    }
}

/// Reads a number.
pub fn i64_from_bytes(bytes: &[u8]) -> (r: Result<i64, PluginError>)
    ensures
        match number_of(bytes@) {
            Ok(n) => r == Ok::<i64, PluginError>(n as i64) && i64::MIN <= n <= i64::MAX,
            Err(e) => r == Err::<i64, PluginError>(e),
        },
{
    if bytes.len() != 8 {
        return Err(PluginError::NotEightBytes);
    }
    let low: u64 = bytes[0] as u64 + bytes[1] as u64 * 0x100 + bytes[2] as u64 * 0x1_0000
        + bytes[3] as u64 * 0x100_0000 + bytes[4] as u64 * 0x1_0000_0000 + bytes[5] as u64
        * 0x100_0000_0000 + bytes[6] as u64 * 0x1_0000_0000_0000;
    let high: u64 = bytes[7] as u64;
    proof {
        let s0 = bytes@;
        let s1 = s0.drop_first();
        let s2 = s1.drop_first();
        let s3 = s2.drop_first();
        let s4 = s3.drop_first();
        let s5 = s4.drop_first();
        let s6 = s5.drop_first();
        let s7 = s6.drop_first();
        let s8 = s7.drop_first();
        assert(le_value(s8) == 0);
        assert(le_value(s7) == s0[7]);
        assert(le_value(s6) == s0[6] + 256 * le_value(s7));
        assert(le_value(s5) == s0[5] + 256 * le_value(s6));
        assert(le_value(s4) == s0[4] + 256 * le_value(s5));
        assert(le_value(s3) == s0[3] + 256 * le_value(s4));
        assert(le_value(s2) == s0[2] + 256 * le_value(s3));
        assert(le_value(s1) == s0[1] + 256 * le_value(s2));
        assert(le_value(s0) == s0[0] + 256 * le_value(s1));
        assert(le_value(s0) == low + high * 0x100_0000_0000_0000);
    }
    if high >= 0x80 {
        let rest: u64 = (high - 0x80) * 0x100_0000_0000_0000 + low;
        let value: i64 = (rest as i64 - 0x4000_0000_0000_0000) - 0x4000_0000_0000_0000;
        Ok(value)
    } else {
        Ok((high * 0x100_0000_0000_0000 + low) as i64)
    }
}

/// Reads a truth value.
pub fn bool_from_bytes(bytes: &[u8]) -> (r: Result<bool, PluginError>)
    ensures
        match number_of(bytes@) {
            Ok(n) => r == Ok::<bool, PluginError>(n != 0),
            Err(e) => r == Err::<bool, PluginError>(e),
        },
{
    match i64_from_bytes(bytes) {
        Ok(n) => Ok(n != 0),
        Err(e) => Err(e),
    }
}

/// Reads a size.
pub fn size_from_bytes(bytes: &[u8]) -> (r: Result<Option<u32>, PluginError>)
    ensures
        r == size_of(bytes@),
{
    match i64_from_bytes(bytes) {
        Err(e) => Err(e),
        Ok(size) => {
            if size < 0 {
                Ok(None)
            } else if size > 0xffff_ffff {
                Err(PluginError::SizeTooLarge)
            } else {
                Ok(Some(size as u32))
            }
        },
    }
}

/// The bytes as text, by `std::str::from_utf8`: there is a text where the
/// bytes are well-formed UTF-8, and it is made of those bytes.
#[verifier::external_body]
fn utf8_text(bytes: &[u8]) -> (text: Option<&str>)
    ensures
        text.is_some() <==> valid_utf8(bytes@),
        text.is_some() ==> text.unwrap()@ == decode_utf8(bytes@),
{
    std::str::from_utf8(bytes).ok()
}

/// Reads a text.
pub fn str_from_bytes(bytes: &[u8]) -> (r: Result<&str, PluginError>)
    ensures
        r.is_ok() <==> valid_utf8(bytes@),
        r.is_ok() ==> r.unwrap()@ == decode_utf8(bytes@),
        r.is_err() ==> r == Err::<&str, PluginError>(PluginError::NotUtf8),
{
    match utf8_text(bytes) {
        Some(text) => Ok(text),
        None => Err(PluginError::NotUtf8),
    }
}

/// What a plugin is asked for when it is to dither an image: the bounds
/// within which the image is first made to fit, whether it is brightened,
/// and the algorithm, if the name that was given is the name of one. A
/// name that is none shows only when the image is dithered, after all else
/// has been done.
#[derive(Clone, Copy, Debug, PartialEq, Eq, Structural)]
pub struct DitherRequest {
    pub max_width: Option<u32>,
    pub max_height: Option<u32>,
    pub bright: bool,
    pub algorithm: Option<DitherAlgorithm>,
}

/// The request that the four arguments spell, or the first reason why
/// there is none.
pub open spec fn request_of(
    max_width: Seq<u8>,
    max_height: Seq<u8>,
    bright: Seq<u8>,
    algorithm: Seq<u8>,
) -> Result<DitherRequest, PluginError> {
    match size_of(max_width) {
        Err(e) => Err(e),
        Ok(w) => match size_of(max_height) {
            Err(e) => Err(e),
            Ok(h) => match number_of(bright) {
                Err(e) => Err(e),
                Ok(b) => if !valid_utf8(algorithm) {
                    Err(PluginError::NotUtf8)
                } else {
                    Ok(
                        DitherRequest {
                            max_width: w,
                            max_height: h,
                            bright: b != 0,
                            algorithm: algorithm_named(decode_utf8(algorithm)),
                        },
                    )
                },
            },
        },
    }
}

/// Reads the arguments of a call to dither an image.
pub fn read_request(max_width: &[u8], max_height: &[u8], bright: &[u8], algorithm: &[u8]) -> (r:
    Result<DitherRequest, PluginError>)
    ensures
        r == request_of(max_width@, max_height@, bright@, algorithm@),
{
    let max_width = match size_from_bytes(max_width) {
        Ok(v) => v,
        Err(e) => {
            return Err(e);
        },
    };
    let max_height = match size_from_bytes(max_height) {
        Ok(v) => v,
        Err(e) => {
            return Err(e);
        },
    };
    let bright = match bool_from_bytes(bright) {
        Ok(v) => v,
        Err(e) => {
            return Err(e);
        },
    };
    let name = match str_from_bytes(algorithm) {
        Ok(v) => v,
        Err(e) => {
            return Err(e);
        },
    };
    Ok(DitherRequest { max_width, max_height, bright, algorithm: DitherAlgorithm::from_name(name) })
}

impl DitherRequest {
    /// Dithers the image to black and white with the algorithm that was
    /// asked for. The alpha of every pixel stays as it is.
    pub fn dither(&self, image: Buffer<Rgba>) -> (r: Result<Buffer<Rgba>, PluginError>)
        ensures
            match self.algorithm {
                None => r == Err::<Buffer<Rgba>, PluginError>(PluginError::UnknownAlgorithm),
                Some(a) => r.is_ok() && r.unwrap().spec_size() == image.spec_size()
                    && r.unwrap().pixels() == dithered(
                    image.pixels(),
                    image.spec_size().x as int,
                    image.spec_size().y as int,
                    seq![
                        Rgba { r: 0, g: 0, b: 0, a: 255 },
                        Rgba { r: 255, g: 255, b: 255, a: 255 },
                    ],
                    a,
                ),
            },
    {
        match self.algorithm {
            None => Err(PluginError::UnknownAlgorithm),
            Some(a) => {
                let mut palette: Vec<Rgba> = Vec::new();
                palette.push(Rgba { r: 0, g: 0, b: 0, a: 255 });
                palette.push(Rgba { r: 255, g: 255, b: 255, a: 255 });
                assert(palette@ =~= seq![
                    Rgba { r: 0, g: 0, b: 0, a: 255 },
                    Rgba { r: 255, g: 255, b: 255, a: 255 },
                ]);
                Ok(a.dither(image, &palette))
            },
        }
    }
}

} // verus!
