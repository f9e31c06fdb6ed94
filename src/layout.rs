//! The bytes of each part of the file, as the writer emits them.
use vstd::prelude::*;
use crate::text::{dec, lit, pad10, signed};

verus! {

/// Object id of the document catalog.
pub const ROOT_OBJECT_ID: usize = 1;

/// Object id of the page tree.
pub const PAGES_OBJECT_ID: usize = 2;

/// The two header lines: the version comment, then a comment of four
/// non-ASCII bytes that marks the file as binary.
pub open spec fn file_header() -> Seq<u8> {
    lit("%PDF-1.7\n%") + seq![0xB5u8, 0xEDu8, 0xAEu8, 0xFBu8] + lit("\n")
}

/// The line that opens the definition of object `id`.
pub open spec fn obj_header(id: nat) -> Seq<u8> {
    dec(id) + lit(" 0 obj\n")
}

/// Object `id` with the given body, framed.
pub open spec fn object(id: nat, body: Seq<u8>) -> Seq<u8> {
    obj_header(id) + body + lit("endobj\n")
}

/// Whether the definition of object `id` begins at byte `offset` of `out`.
pub open spec fn object_at(out: Seq<u8>, offset: nat, id: nat) -> bool {
    offset + obj_header(id).len() <= out.len() && out.subrange(
        offset as int,
        (offset + obj_header(id).len()) as int,
    ) == obj_header(id)
}

/// The bytes of a page's content stream: color spaces, the transform that
/// puts the origin at the top left, then what the page drew.
pub open spec fn stream_data(height: nat, content: Seq<u8>) -> Seq<u8> {
    lit("/DeviceRGB cs /DeviceRGB CS\n") + lit("0.75 0 0 -0.75 0 ") + dec(height) + lit(" cm\n")
        + content
}

/// The operators that fill a rectangle with an RGB color.
pub open spec fn rect_op(
    red: u8,
    green: u8,
    blue: u8,
    x: i32,
    y: i32,
    width: i32,
    height: i32,
) -> Seq<u8> {
    dec(red as nat) + lit(" ") + dec(green as nat) + lit(" ") + dec(blue as nat) + lit(" sc ")
        + signed(x as int) + lit(" ") + signed(y as int) + lit(" ") + signed(width as int) + lit(
        " ",
    ) + signed(height as int) + lit(" re f\n")
}

/// Body of a content-stream object whose length is held by object `length_id`.
pub open spec fn content_body(length_id: nat, data: Seq<u8>) -> Seq<u8> {
    lit("<<  /Length ") + dec(length_id) + lit(" 0 R\n>>\nstream\n") + data + lit("endstream\n")
}

/// Body of the object that holds a stream length.
pub open spec fn length_body(len: nat) -> Seq<u8> {
    dec(len) + lit("\n")
}

/// Body of a page object.
pub open spec fn page_body(width: nat, height: nat, contents_id: nat) -> Seq<u8> {
    lit("<<  /Type /Page\n    /Parent ") + dec(PAGES_OBJECT_ID as nat) + lit(
        " 0 R\n    /Resources << >>\n    /MediaBox [ 0 0 ",
    ) + dec(width) + lit(" ") + dec(height) + lit(" ]\n    /Contents ") + dec(contents_id) + lit(
        " 0 R\n>>\n",
    )
}

/// The three objects of one page, numbered from `first`: the content stream,
/// its length, and the page.
pub open spec fn page_objects(first: nat, width: nat, height: nat, content: Seq<u8>) -> Seq<u8> {
    object(first, content_body(first + 1, stream_data(height, content))) + object(
        first + 1,
        length_body(stream_data(height, content).len()),
    ) + object(first + 2, page_body(width, height, first))
}

/// References to the given objects, each followed by a space.
pub open spec fn kids(ids: Seq<usize>) -> Seq<u8>
    decreases ids.len(),
{
    if ids.len() == 0 {
        Seq::empty()
    } else {
        kids(ids.drop_last()) + dec(ids.last() as nat) + lit(" 0 R ")
    }
}

/// Body of the page tree over the given pages, in order.
pub open spec fn tree_body(ids: Seq<usize>) -> Seq<u8> {
    lit("<<  /Type /Pages\n    /Count ") + dec(ids.len()) + lit("\n    /Kids [ ") + kids(ids) + lit(
        "]\n>>\n",
    )
}

/// Body of the catalog.
pub open spec fn catalog_body() -> Seq<u8> {
    lit("<<  /Type /Catalog\n    /Pages ") + dec(PAGES_OBJECT_ID as nat) + lit(" 0 R\n>>\n")
}

/// One in-use cross-reference line per offset.
pub open spec fn xref_entries(offsets: Seq<nat>) -> Seq<u8>
    decreases offsets.len(),
{
    if offsets.len() == 0 {
        Seq::empty()
    } else {
        xref_entries(offsets.drop_last()) + pad10(offsets.last()) + lit(" 00000 n \n")
    }
}

/// The cross-reference section for objects `0 .. offsets.len()`; the entry
/// of object 0 is the head of the free list.
pub open spec fn xref_section(offsets: Seq<nat>) -> Seq<u8> {
    lit("xref\n0 ") + dec(offsets.len()) + lit("\n0000000000 65535 f \n") + xref_entries(
        offsets.drop_first(),
    )
}

/// The trailer, ending the file.
pub open spec fn trailer(size: nat, startxref: nat) -> Seq<u8> {
    lit("trailer\n<<  /Size ") + dec(size) + lit("\n    /Root ") + dec(ROOT_OBJECT_ID as nat)
        + lit(" 0 R\n>>\nstartxref\n") + dec(startxref) + lit("\n%%EOF\n")
}

pub proof fn lemma_object_nonempty(id: nat, body: Seq<u8>)
    ensures
        object(id, body).len() >= obj_header(id).len() >= 1,
{
    crate::text::lemma_dec_nonempty(id);
}

pub proof fn lemma_object_at_extend(out: Seq<u8>, more: Seq<u8>, offset: nat, id: nat)
    requires
        object_at(out, offset, id),
    ensures
        object_at(out + more, offset, id),
{
    let n = obj_header(id).len();
    assert((out + more).subrange(offset as int, (offset + n) as int) =~= out.subrange(
        offset as int,
        (offset + n) as int,
    ));
}

pub proof fn lemma_object_at_new(pre: Seq<u8>, id: nat, body: Seq<u8>, post: Seq<u8>)
    ensures
        object_at(pre + object(id, body) + post, pre.len(), id),
{
    let n = obj_header(id).len();
    let whole = pre + object(id, body) + post;
    assert(whole.subrange(pre.len() as int, (pre.len() + n) as int) =~= obj_header(id));
}

/// The length that a page's length object declares is the number of bytes
/// between the end of the `stream` line and the `endstream` keyword of its
/// content-stream object, whatever the page drew.
pub proof fn law_declared_length_is_stream_size(
    first: nat,
    width: nat,
    height: nat,
    content: Seq<u8>,
)
    ensures
        ({
            let g = page_objects(first, width, height, content);
            let data = stream_data(height, content);
            let before = obj_header(first) + lit("<<  /Length ") + dec(first + 1) + lit(
                " 0 R\n>>\nstream\n",
            );
            let s = before.len();
            let e = s + data.len();
            let end = e + (lit("endstream\n") + lit("endobj\n")).len();
            &&& end + object(first + 1, length_body(data.len())).len() <= g.len()
            &&& g.subrange(0, s as int) == before
            &&& g.subrange(s as int, e as int) == data
            &&& g.subrange(e as int, end as int) == lit("endstream\n") + lit("endobj\n")
            &&& g.subrange(
                end as int,
                (end + object(first + 1, length_body(data.len())).len()) as int,
            )
                == obj_header(first + 1) + dec((e - s) as nat) + lit("\n") + lit("endobj\n")
        }),
{
    let data = stream_data(height, content);
    let before = obj_header(first) + lit("<<  /Length ") + dec(first + 1) + lit(
        " 0 R\n>>\nstream\n",
    );
    let closing = lit("endstream\n") + lit("endobj\n");
    let c2 = object(first + 1, length_body(data.len()));
    let c3 = object(first + 2, page_body(width, height, first));
    let g = page_objects(first, width, height, content);
    assert(object(first, content_body(first + 1, data)) =~= before + data + closing);
    assert(c2 =~= obj_header(first + 1) + dec(data.len()) + lit("\n") + lit("endobj\n"));
    let head = before + data + closing;
    assert(g == head + c2 + c3);
    lemma_parts(before, data, closing);
    lemma_parts(head, c2, c3);
    assert(g.subrange(0, head.len() as int) == head);
    assert(g.subrange(0, head.len() as int).subrange(0, before.len() as int) =~= g.subrange(0, before.len() as int));
    assert(g.subrange(0, head.len() as int).subrange(before.len() as int, (before.len() + data.len()) as int) =~= g.subrange(before.len() as int, (before.len() + data.len()) as int));
    assert(g.subrange(0, head.len() as int).subrange((before.len() + data.len()) as int, head.len() as int) =~= g.subrange((before.len() + data.len()) as int, head.len() as int));
}

/// The parts of a concatenation of three sequences are found at their places.
pub proof fn lemma_parts(a: Seq<u8>, b: Seq<u8>, c: Seq<u8>)
    ensures
        (a + b + c).subrange(0, a.len() as int) == a,
        (a + b + c).subrange(a.len() as int, (a.len() + b.len()) as int) == b,
        (a + b + c).subrange((a.len() + b.len()) as int, (a.len() + b.len() + c.len()) as int) == c,
{
    assert((a + b + c).subrange(0, a.len() as int) =~= a);
    assert((a + b + c).subrange(a.len() as int, (a.len() + b.len()) as int) =~= b);
    assert((a + b + c).subrange((a.len() + b.len()) as int, (a.len() + b.len() + c.len()) as int) =~= c);
}
} // verus!
