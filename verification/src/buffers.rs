use vstd::prelude::*;
use crate::frame_ops::fill_pixels;

verus! {

/// Width in pixels of the full window.
pub const WIDTH: u32 = 1600;

/// Height in pixels of the full window.
pub const HEIGHT: u32 = 800;

/// The number of bytes of a window-sized RGBA frame.
pub open spec fn window_bytes() -> nat {
    4 * (WIDTH * HEIGHT) as nat
}

/// The regions of the window that keep their own persistent buffer.
#[derive(Clone, Copy, PartialEq, Eq, Debug)]
pub enum BufferType {
    Original,
    Circular,
    Full,
}

/// Persistent window-sized buffers, one per region.
pub struct Buffers {
    pub original: Vec<u8>,
    pub circular: Vec<u8>,
    pub full: Vec<u8>,
}

impl Buffers {
    /// The bytes of the buffer of `buffer_type`.
    pub open spec fn region(&self, buffer_type: BufferType) -> Seq<u8> {
        match buffer_type {
            BufferType::Original => self.original@,
            BufferType::Circular => self.circular@,
            BufferType::Full => self.full@,
        }
    }

    /// Three window-sized buffers of zero bytes.
    pub fn new() -> (b: Buffers)
        ensures
            b.original@ == Seq::new(window_bytes(), |i: int| 0u8),
            b.circular@ == Seq::new(window_bytes(), |i: int| 0u8),
            b.full@ == Seq::new(window_bytes(), |i: int| 0u8),
    {
        let len = (WIDTH * HEIGHT * 4) as usize;
        let b = Buffers { original: vec![0u8; len], circular: vec![0u8; len], full: vec![0u8; len] };
        assert(b.original@ =~= Seq::new(window_bytes(), |i: int| 0u8));
        assert(b.circular@ =~= Seq::new(window_bytes(), |i: int| 0u8));
        assert(b.full@ =~= Seq::new(window_bytes(), |i: int| 0u8));
        b
    }

    /// Sets every byte of the three buffers to zero.
    pub fn clear_all(&mut self)
        requires
            old(self).original@.len() % 4 == 0,
            old(self).circular@.len() % 4 == 0,
            old(self).full@.len() % 4 == 0,
        ensures
            final(self).original@ == Seq::new(old(self).original@.len(), |i: int| 0u8),
            final(self).circular@ == Seq::new(old(self).circular@.len(), |i: int| 0u8),
            final(self).full@ == Seq::new(old(self).full@.len(), |i: int| 0u8),
    {
        let zero: [u8; 4] = [0, 0, 0, 0];
        let ghost o = self.original@;
        let ghost c = self.circular@;
        let ghost f = self.full@;
        fill_pixels(self.original.as_mut_slice(), zero);
        fill_pixels(self.circular.as_mut_slice(), zero);
        fill_pixels(self.full.as_mut_slice(), zero);
        assert(self.original@ =~= Seq::new(o.len(), |i: int| 0u8));
        assert(self.circular@ =~= Seq::new(c.len(), |i: int| 0u8));
        assert(self.full@ =~= Seq::new(f.len(), |i: int| 0u8));
    }

    /// Copies the buffer of `buffer_type` into `frame`, which has its size.
    pub fn copy_to_frame(&self, buffer_type: BufferType, frame: &mut [u8])
        requires
            old(frame)@.len() == self.region(buffer_type).len(),
        ensures
            final(frame)@ == self.region(buffer_type),
    {
        let src: &[u8] = match buffer_type {
            BufferType::Original => self.original.as_slice(),
            BufferType::Circular => self.circular.as_slice(),
            BufferType::Full => self.full.as_slice(),
        };
        let n = frame.len();
        let mut i: usize = 0;
        while i < n
            invariant
                n == frame@.len(),
                n == src@.len(),
                src@ == self.region(buffer_type),
                i <= n,
                forall|b: int| 0 <= b < i ==> #[trigger] frame@[b] == src@[b],
            decreases n - i,
        {
            frame[i] = src[i];
            i = i + 1;
        }
        assert(frame@ =~= src@);
    }

    /// The buffer of `buffer_type`, for writing.
    pub fn get_mut(&mut self, buffer_type: BufferType) -> (bytes: &mut [u8])
        ensures
            bytes@ == old(self).region(buffer_type),
            final(self).region(buffer_type) == final(bytes)@,
            buffer_type != BufferType::Original ==> final(self).original == old(self).original,
            buffer_type != BufferType::Circular ==> final(self).circular == old(self).circular,
            buffer_type != BufferType::Full ==> final(self).full == old(self).full,
    {
        match buffer_type {
            BufferType::Original => self.original.as_mut_slice(),
            BufferType::Circular => self.circular.as_mut_slice(),
            BufferType::Full => self.full.as_mut_slice(),
        }
    }
}

} // verus!
