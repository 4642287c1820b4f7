use vstd::prelude::*;

verus! {

/// One decoded video frame as RGBA bytes.
pub struct VideoFrame {
    pub image: Vec<u8>,
    pub width: u32,
    pub height: u32,
}

/// The video player; decoding runs on a thread of its own.
pub struct VideoPlayer;

/// The big-endian 32-bit number in the four bytes of `d` from `off`.
pub open spec fn be_u32_at(d: Seq<u8>, off: int) -> int {
    d[off] * 0x100_0000 + d[off + 1] * 0x1_0000 + d[off + 2] * 0x100 + d[off + 3]
}

/// The units of a packet in which every unit follows its length as a big-endian 32-bit
/// number, read from `off`: each as the offset and length of its bytes. Reading stops
/// at the end of the packet, before a length that does not fit in four remaining bytes,
/// and at a unit that would run past the end.
pub open spec fn length_prefixed_units(d: Seq<u8>, off: int) -> Seq<(int, int)>
    decreases d.len() - off,
{
    if 0 <= off && off + 4 <= d.len() {
        let len = be_u32_at(d, off);
        if off + 4 + len > d.len() {
            seq![]
        } else {
            seq![(off + 4, len)] + length_prefixed_units(d, off + 4 + len)
        }
    } else {
        seq![]
    }
}

/// The offset and length of each unit of a length-prefixed packet, in order.
pub fn length_prefixed_unit_ranges(data: &[u8]) -> (ranges: Vec<(usize, usize)>)
    ensures
        ranges@.len() == length_prefixed_units(data@, 0).len(),
        forall|k: int|
            0 <= k < ranges@.len() ==> (ranges@[k].0 as int, ranges@[k].1 as int) == #[trigger] length_prefixed_units(
                data@,
                0,
            )[k],
{
    let mut ranges: Vec<(usize, usize)> = Vec::new();
    let mut off: usize = 0;
    let n = data.len();
    let mut done = false;
    let ghost all = length_prefixed_units(data@, 0);
    while !done
        invariant
            n == data@.len(),
            off <= n,
            all == length_prefixed_units(data@, 0),
            done ==> length_prefixed_units(data@, off as int).len() == 0,
            ranges@.len() + length_prefixed_units(data@, off as int).len() == all.len(),
            forall|k: int|
                0 <= k < ranges@.len() ==> (ranges@[k].0 as int, ranges@[k].1 as int) == #[trigger] all[k],
            forall|k: int|
                0 <= k < length_prefixed_units(data@, off as int).len() ==> #[trigger] all[ranges@.len() + k]
                    == length_prefixed_units(data@, off as int)[k],
        decreases n - off + if done { 0int } else { 1int },
    {
        if n < 4 || off > n - 4 {
            proof {
                assert(length_prefixed_units(data@, off as int) =~= seq![]);
            }
            done = true;
        } else {
            let len = ((data[off] as u32) << 24 | (data[off + 1] as u32) << 16 | (data[off + 2] as u32) << 8
                | data[off + 3] as u32) as usize;
            proof {
                let (b0, b1, b2, b3) = (data[off as int], data[off + 1], data[off + 2], data[off + 3]);
                assert(((b0 as u32) << 24 | (b1 as u32) << 16 | (b2 as u32) << 8 | b3 as u32) == b0 * 0x100_0000 + b1
                    * 0x1_0000 + b2 * 0x100 + b3) by (bit_vector);
            }
            let start = off + 4;
            if len > n - start {
                proof {
                    assert(length_prefixed_units(data@, off as int) =~= seq![]);
                }
                done = true;
            } else {
                let ghost here = length_prefixed_units(data@, off as int);
                let ghost rest = length_prefixed_units(data@, (start + len) as int);
                proof {
                    assert(here =~= seq![(start as int, len as int)] + rest);
                    assert(here.len() > 0);
                    assert(all[ranges@.len() + 0int] == here[0]);
                }
                let ghost old_len = ranges@.len();
                ranges.push((start, len));
                off = start + len;
                proof {
                    assert forall|k: int| 0 <= k < rest.len() implies #[trigger] all[ranges@.len() + k] == rest[k] by {
                        assert(all[old_len + (k + 1)] == here[k + 1]);
                    }
                }
            }
        }
    }
    ranges
}

} // verus!
