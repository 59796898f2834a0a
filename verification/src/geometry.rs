//! The size of the image: a width and a height in pixels, written `WIDTHxHEIGHT`.

use crate::decimal::{chars_of, number_of, read_number};
use crate::error::{fails_parse, fails_validation, HistError};
use vstd::prelude::*;

verus! {

/// The size of an image in pixels.
#[derive(Clone, Copy, Debug, PartialEq, Eq, Structural)]
pub struct Geometry {
    pub width: u32,
    pub height: u32,
}

/// What is wrong with a geometry.
pub enum GeometryFault {
    /// It does not hold exactly one `x`.
    Format,
    /// What stands before the `x` is no width.
    Width,
    /// What stands after the `x` is no height.
    Height,
}

/// `text` holds an `x` at place `i` and nowhere else.
pub open spec fn only_x_at(text: Seq<char>, i: int) -> bool {
    &&& 0 <= i < text.len()
    &&& text[i] == 'x'
    &&& forall|j: int| 0 <= j < text.len() && j != i ==> text[j] != 'x'
}

/// The number of pixels that `text` writes: digits, with or without a `+` before them,
/// that give a number from 1 to the greatest `u32`.
pub open spec fn dimension_of(text: Seq<char>) -> Option<u32> {
    let digits = if text.len() > 0 && text[0] == '+' {
        text.skip(1)
    } else {
        text
    };
    match number_of(digits) {
        Some(n) => if 1 <= n <= u32::MAX {
            Some(n as u32)
        } else {
            None
        },
        None => None,
    }
}

/// The geometry that `text` writes, or what is wrong with it.
pub open spec fn geometry_of(text: Seq<char>) -> Result<Geometry, GeometryFault> {
    if !(exists|i: int| only_x_at(text, i)) {
        Err(GeometryFault::Format)
    } else {
        let i = choose|i: int| only_x_at(text, i);
        match dimension_of(text.take(i)) {
            None => Err(GeometryFault::Width),
            Some(width) => match dimension_of(text.skip(i + 1)) {
                None => Err(GeometryFault::Height),
                Some(height) => Ok(Geometry { width, height }),
            },
        }
    }
}

/// Reads the characters of `chars` from `from` up to `to` as a number of pixels.
fn read_dimension(chars: &Vec<char>, from: usize, to: usize) -> (pixels: Option<u32>)
    requires
        from <= to <= chars.len(),
    ensures
        pixels == dimension_of(chars@.subrange(from as int, to as int)),
{
    let ghost text = chars@.subrange(from as int, to as int);
    let start = if from < to && chars[from] == '+' {
        from + 1
    } else {
        from
    };
    proof {
        if start == from + 1 {
            assert(text[0] == '+');
            assert(text.skip(1) =~= chars@.subrange(start as int, to as int));
        } else {
            if text.len() > 0 {
                assert(text[0] == chars@[from as int]);
            }
        }
    }
    match read_number(chars, start, to, 0xffff_ffff) {
        Some(n) => {
            if n >= 1 {
                Some(n as u32)
            } else {
                None
            }
        },
        None => None,
    }
}

/// The geometry that `text` writes: a width, an `x`, and a height.
pub fn parse_geometry(text: &str) -> (result: Result<Geometry, HistError>)
    ensures
        match geometry_of(text@) {
            Ok(geometry) => result == Ok::<Geometry, HistError>(geometry),
            Err(GeometryFault::Format) => fails_validation(
                result,
                "Geometry must be in format WIDTHxHEIGHT"@,
            ),
            Err(GeometryFault::Width) => fails_parse(result, "Invalid width in geometry"@),
            Err(GeometryFault::Height) => fails_parse(result, "Invalid height in geometry"@),
        },
{
    let chars = chars_of(text);
    let n = chars.len();
    let mut found: usize = 0;
    let mut place: usize = 0;
    let mut i: usize = 0;
    while i < n
        invariant
            i <= n,
            n == chars@.len(),
            found <= 2,
            found == 0 ==> forall|j: int| 0 <= j < i ==> chars@[j] != 'x',
            found == 1 ==> place < i && chars@[place as int] == 'x' && forall|j: int|
                0 <= j < i && j != place ==> chars@[j] != 'x',
            found == 2 ==> exists|a: int, b: int|
                0 <= a < b < i && chars@[a] == 'x' && chars@[b] == 'x',
        decreases n - i,
    {
        if chars[i] == 'x' {
            if found == 0 {
                place = i;
                found = 1;
            } else {
                assert(found == 1 ==> chars@[place as int] == 'x' && chars@[i as int] == 'x');
                found = 2;
            }
        }
        i = i + 1;
    }
    if found != 1 {
        proof {
            if exists|k: int| only_x_at(text@, k) {
                let k = choose|k: int| only_x_at(text@, k);
                if found == 2 {
                    let (a, b) = choose|a: int, b: int|
                        0 <= a < b < n && chars@[a] == 'x' && chars@[b] == 'x';
                    assert(a != k || b != k);
                }
            }
        }
        return Err(HistError::validation("Geometry must be in format WIDTHxHEIGHT"));
    }
    proof {
        assert(only_x_at(text@, place as int));
        let k = choose|k: int| only_x_at(text@, k);
        assert(k == place);
        assert(text@.take(place as int) =~= chars@.subrange(0, place as int));
        assert(text@.skip(place + 1) =~= chars@.subrange(place + 1, n as int));
    }
    let width = match read_dimension(&chars, 0, place) {
        Some(pixels) => pixels,
        None => {
            return Err(HistError::parse("Invalid width in geometry"));
        },
    };
    let height = match read_dimension(&chars, place + 1, n) {
        Some(pixels) => pixels,
        None => {
            return Err(HistError::parse("Invalid height in geometry"));
        },
    };
    Ok(Geometry { width, height })
}

} // verus!
