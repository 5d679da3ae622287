use vstd::prelude::*;

verus! {

/// Width of the frame buffer in physical pixels.
pub const BUFFER_WIDTH: usize = 320;

/// Height of the frame buffer in physical pixels.
pub const BUFFER_HEIGHT: usize = 200;

/// A frame buffer of 320 by 200 pixels with one palette byte per pixel, laid
/// out row by row as VGA mode 13h has it.
///
/// Its view is the sequence of its 200 rows, each a sequence of 320 bytes, so
/// that the pixel at column `x` of row `y` is `writer@[y][x]`.
pub struct Writer {
    buffer: Vec<u8>,
}

/// A frame buffer in which every pixel holds palette index 0.
pub open spec fn dark_surface() -> Seq<Seq<u8>> {
    Seq::new(200, |y: int| Seq::new(320, |x: int| 0u8))
}

/// Whether `surface` has 200 rows of 320 pixels.
pub open spec fn surface_shaped(surface: Seq<Seq<u8>>) -> bool {
    &&& surface.len() == 200
    &&& forall|y: int| 0 <= y < 200 ==> (#[trigger] surface[y]).len() == 320
}

/// `surface` with the pixel at (`x`, `y`) replaced by `byte`.
pub open spec fn with_pixel(surface: Seq<Seq<u8>>, x: int, y: int, byte: u8) -> Seq<Seq<u8>> {
    surface.update(y, surface[y].update(x, byte))
}

impl View for Writer {
    type V = Seq<Seq<u8>>;

    closed spec fn view(&self) -> Seq<Seq<u8>> {
        Seq::new(200, |y: int| Seq::new(320, |x: int| self.buffer@[y * 320 + x]))
    }
}

impl Writer {
    /// Whether the buffer has room for all 320 by 200 pixels.
    pub closed spec fn wf(&self) -> bool {
        self.buffer@.len() == 64000
    }

    /// The view of a frame buffer always has 200 rows of 320 pixels.
    pub proof fn lemma_shaped(&self)
        ensures
            surface_shaped(self@),
    {
    }

    /// A frame buffer with every pixel dark.
    pub fn new() -> (writer: Writer)
        ensures
            writer.wf(),
            writer@ == dark_surface(),
    {
        let writer = Writer { buffer: vec![0u8; 64000] };
        assert(writer@ =~~= dark_surface());
        writer
    }

    /// The byte of the pixel at column `x` of row `y`.
    pub fn read_byte(&self, x: u16, y: u16) -> (byte: u8)
        requires
            self.wf(),
            x < 320,
            y < 200,
        ensures
            byte == self@[y as int][x as int],
    {
        self.buffer[y as usize * 320 + x as usize]
    }

    /// Sets the pixel at column `x` of row `y` to `byte`; no other pixel
    /// changes.
    pub fn write_byte(&mut self, x: u16, y: u16, byte: u8)
        requires
            old(self).wf(),
            x < 320,
            y < 200,
        ensures
            final(self).wf(),
            final(self)@ == with_pixel(old(self)@, x as int, y as int, byte),
    {
        self.buffer[y as usize * 320 + x as usize] = byte;
        assert(self@ =~~= with_pixel(old(self)@, x as int, y as int, byte));
    }

    /// Combines `byte` into the pixel at column `x` of row `y` by exclusive
    /// or, and reports whether that pixel was lit (non-zero) before.
    pub fn xor_byte(&mut self, x: u16, y: u16, byte: u8) -> (was_lit: bool)
        requires
            old(self).wf(),
            x < 320,
            y < 200,
        ensures
            final(self).wf(),
            final(self)@ == with_pixel(
                old(self)@,
                x as int,
                y as int,
                old(self)@[y as int][x as int] ^ byte,
            ),
            was_lit == (old(self)@[y as int][x as int] != 0),
    {
        let old_value = self.read_byte(x, y);
        self.write_byte(x, y, old_value ^ byte);
        old_value != 0
    }
}

} // verus!
