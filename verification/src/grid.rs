//! The pixel grid: an image's raw 8-bit RGB channel values in row-major
//! order (row 0 left to right, then row 1, and so on), three channels per
//! pixel. This fixed order is the contract shared by the encoder and the
//! decoder. Embedding rewrites channel least-significant bits; extraction
//! reads them back.

use vstd::prelude::*;

verus! {

/// An image as rows of RGB pixels: `data` holds the channel bytes in
/// row-major order, `R, G, B` per pixel, so its length is
/// `width * height * 3`. That length is also the bit capacity of the
/// image: one hidden bit per channel.
pub struct PixelGrid {
    pub width: u32,
    pub height: u32,
    pub data: Vec<u8>,
}

impl PixelGrid {
    /// The channel buffer matches the dimensions: three bytes per pixel.
    pub open spec fn wf(self) -> bool {
        self.data@.len() == self.width as int * self.height as int * 3
    }

    /// How many bits the image can carry: one per channel.
    pub open spec fn capacity(self) -> int {
        self.data@.len() as int
    }

    /// Builds a grid from dimensions and a channel buffer; rejects a
    /// buffer whose length does not match `width * height * 3`.
    pub fn new(width: u32, height: u32, data: Vec<u8>) -> (r: Option<PixelGrid>)
        ensures
            (r is Some) <==> data@.len() == width as int * height as int * 3,
            r matches Some(g) ==> g.wf() && g.width == width && g.height == height && g.data@
                == data@,
    {
        let len = data.len();
        proof {
            assert((width as int) * (height as int) <= 0xffff_ffffu64 * 0xffff_ffffu64)
                by (nonlinear_arith)
                requires
                    width <= 0xffff_ffffu64,
                    height <= 0xffff_ffffu64,
            ;
        }
        let wh: u64 = (width as u64) * (height as u64);
        if wh > u64::MAX / 3 {
            proof {
                assert(wh * 3 > u64::MAX);
                assert(len <= usize::MAX <= u64::MAX);
            }
            return None;
        }
        let need: u64 = wh * 3;
        if len as u64 == need {
            Some(PixelGrid { width, height, data })
        } else {
            None
        }
    }

    /// The number of bit slots of the image, as a machine integer.
    pub fn bit_capacity(&self) -> (c: usize)
        ensures
            c == self.capacity(),
    {
        self.data.len()
    }
}

/// The least-significant bit of every channel, in scan order.
pub open spec fn lsbs(data: Seq<u8>) -> Seq<u8> {
    Seq::new(data.len(), |i: int| data[i] & 1)
}

/// The channel buffer after embedding `bits`: each channel that receives
/// a bit has its least-significant bit replaced by it; every channel past
/// the end of `bits` is left untouched.
pub open spec fn embedded(data: Seq<u8>, bits: Seq<u8>) -> Seq<u8> {
    Seq::new(
        data.len(),
        |i: int| if i < bits.len() { (data[i] & 254) | bits[i] } else { data[i] },
    )
}

/// Law: embedding alters channels only in their least-significant bit,
/// leaves every channel beyond the consumed bit count bit-identical to
/// the source, and stores each bit exactly where extraction rereads it.
pub proof fn lemma_embed_touches_lsbs_only(data: Seq<u8>, bits: Seq<u8>)
    requires
        bits.len() <= data.len(),
        forall|i: int| 0 <= i < bits.len() ==> bits[i] <= 1,
    ensures
        embedded(data, bits).len() == data.len(),
        forall|i: int|
            0 <= i < data.len() ==> #[trigger] embedded(data, bits)[i] & 254 == data[i] & 254,
        forall|i: int| bits.len() <= i < data.len() ==> #[trigger] embedded(data, bits)[i]
            == data[i],
        forall|i: int| 0 <= i < bits.len() ==> #[trigger] lsbs(embedded(data, bits))[i] == bits[i],
{
    assert forall|i: int|
        0 <= i < data.len() implies #[trigger] embedded(data, bits)[i] & 254 == data[i] & 254 by {
        if i < bits.len() {
            let d = data[i];
            let b = bits[i];
            assert(((d & 254) | b) & 254 == d & 254) by (bit_vector)
                requires
                    b <= 1,
            ;
        }
    }
    assert forall|i: int|
        0 <= i < bits.len() implies #[trigger] lsbs(embedded(data, bits))[i] == bits[i] by {
        let d = data[i];
        let b = bits[i];
        assert(((d & 254) | b) & 1 == b) by (bit_vector)
            requires
                b <= 1,
        ;
    }
}

/// Replaces the least-significant bit of channel `i` with `bits[i]`, for
/// each `i` the bit sequence covers; channels past it stay untouched.
pub fn embed_bits(grid: &mut PixelGrid, bits: &Vec<u8>)
    requires
        bits@.len() <= old(grid).data@.len(),
        forall|i: int| 0 <= i < bits@.len() ==> bits@[i] <= 1,
    ensures
        final(grid).width == old(grid).width,
        final(grid).height == old(grid).height,
        final(grid).data@ == embedded(old(grid).data@, bits@),
{
    let m = bits.len();
    let mut i: usize = 0;
    while i < m
        invariant
            grid.width == old(grid).width,
            grid.height == old(grid).height,
            grid.data@.len() == old(grid).data@.len(),
            m == bits@.len() <= grid.data@.len(),
            i <= m,
            forall|i: int| 0 <= i < bits@.len() ==> bits@[i] <= 1,
            forall|k: int| 0 <= k < i ==> #[trigger] grid.data@[k] == (old(grid).data@[k] & 254)
                | bits@[k],
            forall|k: int| i <= k < grid.data@.len() ==> #[trigger] grid.data@[k] == old(
                grid,
            ).data@[k],
        decreases m - i,
    {
        let c = grid.data[i];
        let b = bits[i];
        grid.data[i] = (c & 254) | b;
        i = i + 1;
    }
    proof {
        assert(grid.data@ =~= embedded(old(grid).data@, bits@));
    }
}

/// Collects the least-significant bit of every channel, in scan order,
/// over the whole image.
pub fn extract_bits(grid: &PixelGrid) -> (bits: Vec<u8>)
    ensures
        bits@ == lsbs(grid.data@),
{
    let mut bits: Vec<u8> = Vec::new();
    let n = grid.data.len();
    let mut i: usize = 0;
    while i < n
        invariant
            n == grid.data@.len(),
            i <= n,
            bits@.len() == i,
            forall|k: int| 0 <= k < i ==> #[trigger] bits@[k] == grid.data@[k] & 1,
        decreases n - i,
    {
        let b = grid.data[i] & 1;
        bits.push(b);
        i = i + 1;
    }
    proof {
        assert(bits@ =~= lsbs(grid.data@));
    }
    bits
}

} // verus!
