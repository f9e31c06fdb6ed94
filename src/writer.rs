//! The document writer: numbers objects, records where each begins, and ends
//! the file with the cross-reference table and trailer.
use vstd::prelude::*;
use vstd::string::{is_ascii, is_ascii_spec_bytes};
use crate::canvas::Canvas;
use crate::layout::{
    catalog_body, content_body, file_header, kids, length_body, lemma_object_at_extend,
    lemma_object_at_new, lemma_object_nonempty, lemma_parts, object, object_at, page_body,
    page_objects, stream_data, trailer, tree_body, xref_entries, xref_section, PAGES_OBJECT_ID,
    ROOT_OBJECT_ID,
};
use crate::text::{dec, lit, push_bytes, push_dec, push_lit, push_pad10};

verus! {

broadcast use is_ascii_spec_bytes;

/// A PDF document being written into a byte buffer.
pub struct Pdf {
    output: Vec<u8>,
    /// Start of each object's definition, by id; `None` while not written.
    object_offsets: Vec<Option<usize>>,
    /// Ids of the page objects, in the order the pages were added.
    page_objects_ids: Vec<usize>,
}

impl Pdf {
    /// The bytes written so far.
    pub closed spec fn bytes(&self) -> Seq<u8> {
        self.output@
    }

    /// Where each object begins, by id; `None` for an id not written yet.
    pub closed spec fn offsets(&self) -> Seq<Option<usize>> {
        self.object_offsets@
    }

    /// The page object ids, in the order the pages were added.
    pub closed spec fn page_ids(&self) -> Seq<usize> {
        self.page_objects_ids@
    }

    /// Id 0 is never used, ids 1 and 2 stay reserved for the catalog and page
    /// tree, every other id has been written at its recorded offset, and each
    /// page took three ids: its content stream, the stream's length, itself.
    pub open spec fn wf(&self) -> bool {
        &&& self.offsets().len() == 3 + 3 * self.page_ids().len()
        &&& self.offsets().len() + 3 <= self.bytes().len()
        &&& self.offsets()[0] is None
        &&& self.offsets()[ROOT_OBJECT_ID as int] is None
        &&& self.offsets()[PAGES_OBJECT_ID as int] is None
        &&& forall|i: int|
            3 <= i < self.offsets().len() ==> #[trigger] self.offsets()[i] is Some && object_at(
                self.bytes(),
                self.offsets()[i]->Some_0 as nat,
                i as nat,
            )
        &&& forall|k: int|
            0 <= k < self.page_ids().len() ==> #[trigger] self.page_ids()[k] == 3 * k + 5
    }

    /// Starts a document in `output`, after what it already holds, by
    /// writing the file header.
    pub fn new(output: Vec<u8>) -> (pdf: Pdf)
        ensures
            pdf.wf(),
            pdf.bytes() == output@ + file_header(),
            pdf.page_ids().len() == 0,
    {
        let mut out = output;
        push_lit(&mut out, "%PDF-1.7\n%");
        out.push(0xB5u8);
        out.push(0xEDu8);
        out.push(0xAEu8);
        out.push(0xFBu8);
        push_lit(&mut out, "\n");
        let pdf = Pdf { output: out, object_offsets: vec![None, None, None], page_objects_ids: Vec::new() };
        assert(pdf.bytes() =~= output@ + file_header());
        proof {
            reveal_strlit("%PDF-1.7\n%");
            assert(is_ascii("%PDF-1.7\n%"));
            assert(lit("%PDF-1.7\n%").len() == 10);
        }
        pdf
    }
}

impl Pdf {
    /// Writes object `id` with the given body at the end of the output and
    /// returns where it begins.
    fn write_object(&mut self, id: usize, body: &[u8]) -> (offset: usize)
        ensures
            final(self).bytes() == old(self).bytes() + object(id as nat, body@),
            final(self).offsets() == old(self).offsets(),
            final(self).page_ids() == old(self).page_ids(),
            offset == old(self).bytes().len(),
    {
        let offset = self.output.len();
        push_dec(&mut self.output, id);
        push_lit(&mut self.output, " 0 obj\n");
        push_bytes(&mut self.output, body);
        push_lit(&mut self.output, "endobj\n");
        assert(self.output@ =~= old(self).bytes() + object(id as nat, body@));
        offset
    }

    /// Writes the given body as the object with the next unused id, and
    /// returns that id.
    fn write_new_object(&mut self, body: &[u8]) -> (id: usize)
        ensures
            id == old(self).offsets().len(),
            final(self).bytes() == old(self).bytes() + object(id as nat, body@),
            final(self).offsets() == old(self).offsets().push(
                Some(old(self).bytes().len() as usize),
            ),
            final(self).page_ids() == old(self).page_ids(),
    {
        let id = self.object_offsets.len();
        let offset = self.write_object(id, body);
        self.object_offsets.push(Some(offset));
        id
    }

    /// Writes the given body as reserved object `id`, which has not been
    /// written yet.
    fn write_object_with_id(&mut self, id: usize, body: &[u8])
        requires
            id < old(self).offsets().len(),
            old(self).offsets()[id as int] is None,
        ensures
            final(self).bytes() == old(self).bytes() + object(id as nat, body@),
            final(self).offsets() == old(self).offsets().update(
                id as int,
                Some(old(self).bytes().len() as usize),
            ),
            final(self).page_ids() == old(self).page_ids(),
    {
        let offset = self.write_object(id, body);
        self.object_offsets.set(id, Some(offset));
    }
}

/// `after` is `before` with one more page of the given size and content:
/// the content stream, its length and the page are written as the next
/// three objects, the length object right after the stream it measures, and
/// the page joins the end of the page list.
#[verifier::opaque]
pub open spec fn page_added(
    before: Pdf,
    after: Pdf,
    width: nat,
    height: nat,
    content: Seq<u8>,
) -> bool {
    let c = before.offsets().len() as int;
    let data = stream_data(height, content);
    let first = object(c as nat, content_body((c + 1) as nat, data));
    let second = object((c + 1) as nat, length_body(data.len()));
    &&& after.bytes() == before.bytes() + page_objects(c as nat, width, height, content)
    &&& after.page_ids() == before.page_ids().push((c + 2) as usize)
    &&& after.offsets().len() == c + 3
    &&& after.offsets().subrange(0, c) == before.offsets()
    &&& after.offsets()[c]->Some_0 == before.bytes().len()
    &&& after.offsets()[c + 1]->Some_0 == before.bytes().len() + first.len()
    &&& after.offsets()[c + 2]->Some_0 == before.bytes().len() + first.len() + second.len()
}

impl Pdf {
    /// Adds a page of the given size whose content is drawn by
    /// `render_contents` on a fresh canvas: the page holds exactly what the
    /// canvas holds when `render_contents` returns `Ok`. When it returns an
    /// error instead, that error is returned and nothing of the page is
    /// written.
    pub fn render_page<F, E>(&mut self, width: u32, height: u32, render_contents: F) -> (r: Result<(), E>)
        where
            F: FnOnce(&mut Canvas) -> Result<(), E>,
        requires
            old(self).wf(),
            forall|c: &mut Canvas| call_requires(render_contents, (c,)),
        ensures
            final(self).wf(),
            r is Ok ==> exists|m: &mut Canvas|
                call_ensures(render_contents, (m,), r) && (*m).content() == Seq::<u8>::empty()
                    && page_added(
                    *old(self),
                    *final(self),
                    width as nat,
                    height as nat,
                    final(m).content(),
                ),
            r is Err ==> exists|m: &mut Canvas|
                call_ensures(render_contents, (m,), r) && (*m).content() == Seq::<u8>::empty(),
            r is Err ==> final(self).bytes() == old(self).bytes() && final(self).offsets()
                == old(self).offsets() && final(self).page_ids() == old(self).page_ids(),
    {
        let mut canvas = Canvas::new();
        let ghost empty = canvas;
        let res = render_contents(&mut canvas);
        assert(exists|m: &mut Canvas|
            call_ensures(render_contents, (m,), res) && mut_ref_current(m) == empty
                && mut_ref_future(m) == canvas);
        let ghost m = choose|m: &mut Canvas|
            call_ensures(render_contents, (m,), res) && mut_ref_current(m) == empty
                && mut_ref_future(m) == canvas;
        if res.is_ok() {
            let content = canvas.into_content();
            self.write_page(width, height, content.as_slice());
            assert(page_added(
                *old(self),
                *self,
                width as nat,
                height as nat,
                mut_ref_future(m).content(),
            ));
        }
        res
    }

    /// Adds a page of the given size whose content stream holds the preamble
    /// and then `content`: writes the content stream, its length and the page
    /// as the next three objects, and appends the page to the page list.
    pub fn write_page(&mut self, width: u32, height: u32, content: &[u8])
        requires
            old(self).wf(),
        ensures
            final(self).wf(),
            page_added(*old(self), *final(self), width as nat, height as nat, content@),
    {
        let ghost pre = self.output@;
        // The ids fall below the output's length, so the next three fit.
        let written = self.output.len();
        let c = self.object_offsets.len();
        assert(c + 3 <= written);
        let data = stream_bytes(height, content);
        let length = data.len();

        let body = contents_dict(c + 1, data.as_slice());
        let contents_object_id = self.write_new_object(body.as_slice());
        let ghost b1 = body@;
        proof {
            lemma_object_nonempty(c as nat, b1);
        }

        let body = length_dict(length);
        let length_object_id = self.write_new_object(body.as_slice());
        assert(length_object_id == contents_object_id + 1);
        let ghost b2 = body@;
        proof {
            lemma_object_nonempty((c + 1) as nat, b2);
        }

        let body = page_dict(width, height, contents_object_id);
        let page_object_id = self.write_new_object(body.as_slice());
        let ghost b3 = body@;
        proof {
            lemma_object_nonempty((c + 2) as nat, b3);
        }
        self.page_objects_ids.push(page_object_id);
        // Reading the length bounds it by `usize::MAX` for the proof below.
        let written = self.output.len();
        proof {
            reveal(page_added);
            lemma_three_objects_recorded(
                old(self).offsets(),
                self.offsets(),
                pre,
                self.output@,
                b1,
                b2,
                b3,
            );
            assert(self.output@ =~= pre + page_objects(c as nat, width as nat, height as nat, content@));
            assert(self.offsets().subrange(0, c as int) =~= old(self).offsets());
        }
    }
}

/// The body of the page tree over the given pages, in order.
fn tree_dict(ids: &Vec<usize>) -> (r: Vec<u8>)
    ensures
        r@ == tree_body(ids@),
{
    let mut body: Vec<u8> = Vec::new();
    push_lit(&mut body, "<<  /Type /Pages\n    /Count ");
    push_dec(&mut body, ids.len());
    push_lit(&mut body, "\n    /Kids [ ");
    let ghost head = body@;
    let mut k: usize = 0;
    while k < ids.len()
        invariant
            k <= ids@.len(),
            body@ == head + kids(ids@.subrange(0, k as int)),
        decreases ids@.len() - k,
    {
        push_dec(&mut body, ids[k]);
        push_lit(&mut body, " 0 R ");
        k = k + 1;
        assert(ids@.subrange(0, k as int).drop_last() =~= ids@.subrange(0, k - 1));
        assert(body@ =~= head + kids(ids@.subrange(0, k as int)));
    }
    assert(ids@.subrange(0, k as int) =~= ids@);
    push_lit(&mut body, "]\n>>\n");
    assert(body@ =~= tree_body(ids@));
    body
}

/// The body of the catalog.
fn catalog_dict() -> (r: Vec<u8>)
    ensures
        r@ == catalog_body(),
{
    let mut body: Vec<u8> = Vec::new();
    push_lit(&mut body, "<<  /Type /Catalog\n    /Pages ");
    push_dec(&mut body, PAGES_OBJECT_ID);
    push_lit(&mut body, " 0 R\n>>\n");
    assert(body@ =~= catalog_body());
    body
}

/// The bytes of a page's content stream.
fn stream_bytes(height: u32, content: &[u8]) -> (r: Vec<u8>)
    ensures
        r@ == stream_data(height as nat, content@),
{
    let mut data: Vec<u8> = Vec::new();
    push_lit(&mut data, "/DeviceRGB cs /DeviceRGB CS\n");
    push_lit(&mut data, "0.75 0 0 -0.75 0 ");
    push_dec(&mut data, height as usize);
    push_lit(&mut data, " cm\n");
    push_bytes(&mut data, content);
    assert(data@ =~= stream_data(height as nat, content@));
    data
}

/// The body of a content-stream object.
fn contents_dict(length_id: usize, data: &[u8]) -> (r: Vec<u8>)
    ensures
        r@ == content_body(length_id as nat, data@),
{
    let mut body: Vec<u8> = Vec::new();
    push_lit(&mut body, "<<  /Length ");
    push_dec(&mut body, length_id);
    push_lit(&mut body, " 0 R\n>>\nstream\n");
    push_bytes(&mut body, data);
    push_lit(&mut body, "endstream\n");
    assert(body@ =~= content_body(length_id as nat, data@));
    body
}

/// The body of a stream-length object.
fn length_dict(length: usize) -> (r: Vec<u8>)
    ensures
        r@ == length_body(length as nat),
{
    let mut body: Vec<u8> = Vec::new();
    push_dec(&mut body, length);
    push_lit(&mut body, "\n");
    body
}

/// The body of a page object.
fn page_dict(width: u32, height: u32, contents_id: usize) -> (r: Vec<u8>)
    ensures
        r@ == page_body(width as nat, height as nat, contents_id as nat),
{
    let mut body: Vec<u8> = Vec::new();
    push_lit(&mut body, "<<  /Type /Page\n    /Parent ");
    push_dec(&mut body, PAGES_OBJECT_ID);
    push_lit(&mut body, " 0 R\n    /Resources << >>\n    /MediaBox [ 0 0 ");
    push_dec(&mut body, width as usize);
    push_lit(&mut body, " ");
    push_dec(&mut body, height as usize);
    push_lit(&mut body, " ]\n    /Contents ");
    push_dec(&mut body, contents_id);
    push_lit(&mut body, " 0 R\n>>\n");
    assert(body@ =~= page_body(width as nat, height as nat, contents_id as nat));
    body
}

impl Pdf {
    /// Where each object of the finished file begins: the page tree right
    /// after what was written so far, then the catalog, and every other
    /// object where it was recorded. Entry 0 stands for the free-list head.
    pub open spec fn final_offsets(&self) -> Seq<nat> {
        Seq::new(
            self.offsets().len(),
            |i: int|
                if i == ROOT_OBJECT_ID as int {
                    self.bytes().len() + object(
                        PAGES_OBJECT_ID as nat,
                        tree_body(self.page_ids()),
                    ).len()
                } else if i == PAGES_OBJECT_ID as int {
                    self.bytes().len()
                } else if i == 0 {
                    0
                } else {
                    self.offsets()[i]->Some_0 as nat
                },
        )
    }

    /// Where the cross-reference section of the finished file begins.
    pub open spec fn startxref(&self) -> nat {
        self.bytes().len() + object(PAGES_OBJECT_ID as nat, tree_body(self.page_ids())).len()
            + object(ROOT_OBJECT_ID as nat, catalog_body()).len()
    }

    /// Ends the document: writes the page tree, the catalog, the
    /// cross-reference table and the trailer, and returns the whole output.
    pub fn finish(self) -> (r: Vec<u8>)
        requires
            self.wf(),
        ensures
            r@ == self.bytes() + object(PAGES_OBJECT_ID as nat, tree_body(self.page_ids()))
                + object(ROOT_OBJECT_ID as nat, catalog_body()) + xref_section(
                self.final_offsets(),
            ) + trailer(self.offsets().len(), self.startxref()),
            forall|i: int|
                1 <= i < self.final_offsets().len() ==> object_at(
                    r@,
                    #[trigger] self.final_offsets()[i],
                    i as nat,
                ),
            self.startxref() + xref_section(self.final_offsets()).len() <= r@.len(),
            r@.subrange(
                self.startxref() as int,
                (self.startxref() + xref_section(self.final_offsets()).len()) as int,
            ) == xref_section(self.final_offsets()),
    {
        let ghost start = self;
        let mut pdf = self;
        let tree = tree_dict(&pdf.page_objects_ids);
        pdf.write_object_with_id(PAGES_OBJECT_ID, tree.as_slice());
        let catalog = catalog_dict();
        pdf.write_object_with_id(ROOT_OBJECT_ID, catalog.as_slice());
        let ghost objects_end = pdf.output@;
        let ghost offs = start.final_offsets();

        let startxref = pdf.output.len();
        let n = pdf.object_offsets.len();
        assert(offsets_of(pdf.object_offsets@) =~= offs);
        let mut out = pdf.output;
        write_xref(&mut out, &pdf.object_offsets);
        write_trailer(&mut out, n, startxref);
        proof {
            let tree = object(PAGES_OBJECT_ID as nat, tree_body(start.page_ids()));
            let catalog = object(ROOT_OBJECT_ID as nat, catalog_body());
            let tail = xref_section(offs) + trailer(n as nat, startxref as nat);
            assert(out@ =~= start.bytes() + tree + catalog + xref_section(offs) + trailer(
                n as nat,
                startxref as nat,
            ));
            assert(out@ =~= objects_end + tail);
            assert(objects_end =~= start.bytes() + tree + catalog);
            assert(out@.subrange(startxref as int, startxref + xref_section(offs).len()) =~= xref_section(offs));
            assert(start.bytes() + tree + catalog + tail =~= out@);
            assert forall|i: int| 3 <= i < offs.len() implies object_at(
                start.bytes(),
                #[trigger] offs[i],
                i as nat,
            ) by {
                assert(start.offsets()[i] is Some);
            }
            lemma_final_objects_recorded(start.bytes(), tree_body(start.page_ids()), tail, offs);
        }
        out
    }
}

/// The offsets recorded in `offsets`, with 0 for an entry not written.
pub open spec fn offsets_of(offsets: Seq<Option<usize>>) -> Seq<nat> {
    Seq::new(
        offsets.len(),
        |i: int|
            match offsets[i] {
                Some(o) => o as nat,
                None => 0,
            },
    )
}

/// Appends the cross-reference section for the given offsets, all of which
/// but the first are recorded.
fn write_xref(out: &mut Vec<u8>, offsets: &Vec<Option<usize>>)
    requires
        offsets@.len() >= 1,
        forall|j: int| 1 <= j < offsets@.len() ==> #[trigger] offsets@[j] is Some,
    ensures
        final(out)@ == old(out)@ + xref_section(offsets_of(offsets@)),
{
    let ghost offs = offsets_of(offsets@);
    let n = offsets.len();
    push_lit(out, "xref\n0 ");
    push_dec(out, n);
    push_lit(out, "\n0000000000 65535 f \n");
    let ghost head = out@;
    let mut i: usize = 1;
    while i < n
        invariant
            1 <= i <= n,
            n == offsets@.len(),
            offs == offsets_of(offsets@),
            forall|j: int| 1 <= j < offsets@.len() ==> #[trigger] offsets@[j] is Some,
            out@ == head + xref_entries(offs.subrange(1, i as int)),
        decreases n - i,
    {
        let offset = offsets[i].unwrap();
        push_pad10(out, offset);
        push_lit(out, " 00000 n \n");
        i = i + 1;
        assert(offs.subrange(1, i as int).drop_last() =~= offs.subrange(1, i - 1));
        assert(offs.subrange(1, i as int).last() == offset as nat);
        assert(out@ =~= head + xref_entries(offs.subrange(1, i as int)));
    }
    assert(offs.subrange(1, n as int) =~= offs.drop_first());
    assert(out@ =~= old(out)@ + xref_section(offs));
}

/// Appends the trailer.
fn write_trailer(out: &mut Vec<u8>, size: usize, startxref: usize)
    ensures
        final(out)@ == old(out)@ + trailer(size as nat, startxref as nat),
{
    push_lit(out, "trailer\n<<  /Size ");
    push_dec(out, size);
    push_lit(out, "\n    /Root ");
    push_dec(out, ROOT_OBJECT_ID);
    push_lit(out, " 0 R\n>>\nstartxref\n");
    push_dec(out, startxref);
    push_lit(out, "\n%%EOF\n");
    assert(final(out)@ =~= old(out)@ + trailer(size as nat, startxref as nat));
}

/// After the page tree and then the catalog are written at the end of `pre`,
/// every object from 1 on is found at its offset.
proof fn lemma_final_objects_recorded(pre: Seq<u8>, tree: Seq<u8>, tail: Seq<u8>, offs: Seq<nat>)
    requires
        offs.len() >= 3,
        offs[PAGES_OBJECT_ID as int] == pre.len(),
        offs[ROOT_OBJECT_ID as int] == pre.len() + object(PAGES_OBJECT_ID as nat, tree).len(),
        forall|i: int| 3 <= i < offs.len() ==> object_at(pre, #[trigger] offs[i], i as nat),
    ensures
        forall|i: int|
            1 <= i < offs.len() ==> object_at(
                pre + object(PAGES_OBJECT_ID as nat, tree) + object(
                    ROOT_OBJECT_ID as nat,
                    catalog_body(),
                ) + tail,
                #[trigger] offs[i],
                i as nat,
            ),
{
    let t = object(PAGES_OBJECT_ID as nat, tree);
    let c = object(ROOT_OBJECT_ID as nat, catalog_body());
    let out = pre + t + c + tail;
    lemma_object_at_new(pre, PAGES_OBJECT_ID as nat, tree, c + tail);
    lemma_object_at_new(pre + t, ROOT_OBJECT_ID as nat, catalog_body(), tail);
    assert(pre + t + (c + tail) =~= out);
    assert(pre + t + c + tail =~= out);
    assert forall|i: int| 1 <= i < offs.len() implies object_at(out, #[trigger] offs[i], i as nat) by {
        if i >= 3 {
            lemma_object_at_extend(pre, t + c + tail, offs[i], i as nat);
            assert(pre + (t + c + tail) =~= out);
        }
    }
}

/// Adding a page adds one to the page count and puts the new page object
/// last among the page tree's kids, after those of the earlier pages in the
/// order they were added; the page object is written at its recorded offset.
pub proof fn law_page_joins_kids_in_order(
    before: Pdf,
    after: Pdf,
    width: nat,
    height: nat,
    content: Seq<u8>,
)
    requires
        before.wf(),
        page_added(before, after, width, height, content),
    ensures
        ({
            let id = before.offsets().len() + 2;
            let page = object(id as nat, page_body(width, height, (id - 2) as nat));
            let at = after.offsets()[id as int]->Some_0;
            &&& after.page_ids().len() == before.page_ids().len() + 1
            &&& after.page_ids().last() == id
            &&& tree_body(after.page_ids()) == lit("<<  /Type /Pages\n    /Count ") + dec(
                before.page_ids().len() + 1,
            ) + lit("\n    /Kids [ ") + kids(before.page_ids()) + dec(id as nat) + lit(" 0 R ")
                + lit("]\n>>\n")
            &&& at + page.len() == after.bytes().len()
            &&& after.bytes().subrange(at as int, (at + page.len()) as int) == page
        }),
{
    reveal(page_added);
    let c = before.offsets().len();
    let data = stream_data(height, content);
    let first = object(c, content_body(c + 1, data));
    let second = object(c + 1, length_body(data.len()));
    let page = object(c + 2, page_body(width, height, c));
    assert(after.page_ids().drop_last() =~= before.page_ids());
    assert(after.bytes() =~= before.bytes() + first + second + page);
    lemma_parts(before.bytes() + first + second, page, Seq::empty());
    assert(before.bytes() + first + second + page + Seq::<u8>::empty() =~= after.bytes());
}

/// Three objects written one after the other at the end of `pre` keep the
/// recorded offsets of earlier objects valid and are found at their own.
proof fn lemma_three_objects_recorded(
    offs: Seq<Option<usize>>,
    new_offs: Seq<Option<usize>>,
    pre: Seq<u8>,
    out: Seq<u8>,
    b1: Seq<u8>,
    b2: Seq<u8>,
    b3: Seq<u8>,
)
    requires
        offs.len() >= 3,
        forall|i: int|
            3 <= i < offs.len() ==> #[trigger] offs[i] is Some && object_at(
                pre,
                offs[i]->Some_0 as nat,
                i as nat,
            ),
        out == pre + object(offs.len(), b1) + object(offs.len() + 1, b2) + object(
            offs.len() + 2,
            b3,
        ),
        out.len() <= usize::MAX,
        new_offs == offs.push(Some(pre.len() as usize)).push(
            Some((pre.len() + object(offs.len(), b1).len()) as usize),
        ).push(
            Some(
                (pre.len() + object(offs.len(), b1).len() + object(
                    offs.len() + 1,
                    b2,
                ).len()) as usize,
            ),
        ),
    ensures
        forall|i: int|
            3 <= i < new_offs.len() ==> #[trigger] new_offs[i] is Some && object_at(
                out,
                new_offs[i]->Some_0 as nat,
                i as nat,
            ),
{
    let c = offs.len();
    let first = object(c, b1);
    let second = object(c + 1, b2);
    let third = object(c + 2, b3);
    assert(pre + first + (second + third) =~= out);
    assert(pre + first + second + third =~= out);
    assert((pre + first + second + third) + Seq::<u8>::empty() =~= out);
    lemma_object_at_new(pre, c, b1, second + third);
    lemma_object_at_new(pre + first, c + 1, b2, third);
    lemma_object_at_new(pre + first + second, c + 2, b3, Seq::<u8>::empty());
    assert forall|i: int| 3 <= i < new_offs.len() implies #[trigger] new_offs[i] is Some
        && object_at(out, new_offs[i]->Some_0 as nat, i as nat) by {
        if i < c {
            assert(new_offs[i] == offs[i]);
            lemma_object_at_extend(pre, first + second + third, offs[i]->Some_0 as nat, i as nat);
            assert(pre + (first + second + third) =~= out);
        }
    }
}

} // verus!
