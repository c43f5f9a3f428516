//! A two-dimensional point, the demo payload type of the bridge node.

use vstd::prelude::*;

verus! {

/// A point with 16-bit coordinates, carried as four little-endian bytes.
#[derive(Copy, Clone, Debug, PartialEq, Eq, Structural)]
pub struct Point {
    pub x: u16,
    pub y: u16,
}

/// The four little-endian bytes of a point.
pub open spec fn point_bytes(p: Point) -> Seq<u8> {
    seq![
        (p.x % 256) as u8,
        (p.x / 256) as u8,
        (p.y % 256) as u8,
        (p.y / 256) as u8,
    ]
}

impl Point {
    pub fn new(x: u16, y: u16) -> (r: Point)
        ensures
            r.x == x && r.y == y,
    {
        Point { x, y }
    }

    /// Serialize as four little-endian bytes appended to `out`.
    pub fn ser_bytes(&self, out: &mut Vec<u8>)
        ensures
            final(out)@ == old(out)@ + point_bytes(*self),
    {
        out.push((self.x % 256) as u8);
        out.push((self.x / 256) as u8);
        out.push((self.y % 256) as u8);
        out.push((self.y / 256) as u8);
        proof {
            assert(final(out)@ =~= old(out)@ + point_bytes(*self));
        }
    }

    /// Read a point from four little-endian bytes at `at`.
    pub fn des_bytes(bytes: &Vec<u8>, at: usize) -> (r: Option<Point>)
        ensures
            at + 4 <= bytes@.len() ==> (r matches Some(p) && point_bytes(p) == bytes@.subrange(
                at as int,
                at + 4,
            )),
            at + 4 > bytes@.len() ==> r is None,
    {
        if at > bytes.len() || bytes.len() - at < 4 {
            return None;
        }
        let x = (bytes[at] as u16) + (bytes[at + 1] as u16) * 256;
        let y = (bytes[at + 2] as u16) + (bytes[at + 3] as u16) * 256;
        let p = Point { x, y };
        proof {
            assert(point_bytes(p) =~= bytes@.subrange(at as int, at + 4));
        }
        Some(p)
    }
}

/// Component-wise sum of two points, wrapping at 16 bits.
pub fn sync(p1: Point, p2: Point) -> (r: Point)
    ensures
        r.x == (p1.x + p2.x) % 0x10000,
        r.y == (p1.y + p2.y) % 0x10000,
{
    let x = ((p1.x as u32 + p2.x as u32) % 0x10000) as u16;
    let y = ((p1.y as u32 + p2.y as u32) % 0x10000) as u16;
    Point { x, y }
}

} // verus!
