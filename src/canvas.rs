//! The content-stream encoder handed to a page's drawing code.
use vstd::prelude::*;
use crate::layout::rect_op;
use crate::text::{push_dec, push_int, push_lit};

verus! {

/// Collects the operators of one page's content stream.
pub struct Canvas {
    content: Vec<u8>,
}

impl Canvas {
    /// The operators written so far.
    pub closed spec fn content(&self) -> Seq<u8> {
        self.content@
    }

    /// A canvas with nothing drawn.
    pub(crate) fn new() -> (c: Canvas)
        ensures
            c.content() == Seq::<u8>::empty(),
    {
        Canvas { content: Vec::new() }
    }

    /// The operators written, in order.
    pub(crate) fn into_content(self) -> (r: Vec<u8>)
        ensures
            r@ == self.content(),
    {
        self.content
    }

    /// Fills the rectangle at (`x`, `y`) of the given size with the color
    /// (`r`, `g`, `b`).
    pub fn rectangle(&mut self, r: u8, g: u8, b: u8, x: i32, y: i32, width: i32, height: i32)
        ensures
            final(self).content() == old(self).content() + rect_op(r, g, b, x, y, width, height),
    {
        let out = &mut self.content;
        push_dec(out, r as usize);
        push_lit(out, " ");
        push_dec(out, g as usize);
        push_lit(out, " ");
        push_dec(out, b as usize);
        push_lit(out, " sc ");
        push_int(out, x);
        push_lit(out, " ");
        push_int(out, y);
        push_lit(out, " ");
        push_int(out, width);
        push_lit(out, " ");
        push_int(out, height);
        push_lit(out, " re f\n");
        assert(self.content@ =~= old(self).content() + rect_op(r, g, b, x, y, width, height));
    }
}

} // verus!
