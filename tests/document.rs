use pdf::{Canvas, Pdf};
use std::io;

fn find(hay: &[u8], needle: &[u8]) -> Option<usize> {
    if needle.len() > hay.len() {
        return None;
    }
    (0..=hay.len() - needle.len()).find(|&i| &hay[i..i + needle.len()] == needle)
}

fn count(hay: &[u8], needle: &[u8]) -> usize {
    if needle.len() > hay.len() {
        return 0;
    }
    (0..=hay.len() - needle.len()).filter(|&i| &hay[i..i + needle.len()] == needle).count()
}

fn text(bytes: &[u8]) -> String {
    String::from_utf8_lossy(bytes).into_owned()
}

fn red_square(c: &mut Canvas) -> Result<(), io::Error> {
    c.rectangle(255, 0, 0, 10, 10, 50, 50);
    Ok(())
}

/// The offsets listed in the cross-reference section, by object id, and
/// the value given after `startxref`.
fn xref_offsets(out: &[u8]) -> (Vec<usize>, usize) {
    let start = find(out, b"xref\n").unwrap();
    let s = text(&out[start..]);
    let mut lines = s.lines();
    assert_eq!(lines.next(), Some("xref"));
    let header = lines.next().unwrap();
    let n: usize = header.strip_prefix("0 ").unwrap().parse().unwrap();
    assert_eq!(lines.next(), Some("0000000000 65535 f "));
    let mut offsets = vec![0];
    for _ in 1..n {
        let line = lines.next().unwrap();
        assert_eq!(line.len(), 19);
        assert!(line.ends_with(" 00000 n "));
        offsets.push(line[..10].parse().unwrap());
    }
    let tail = text(&out[find(out, b"startxref\n").unwrap()..]);
    let sx: usize = tail.lines().nth(1).unwrap().parse().unwrap();
    (offsets, sx)
}

fn one_page_document() -> Vec<u8> {
    let mut pdf = Pdf::new(Vec::new());
    pdf.render_page(200, 100, red_square).unwrap();
    pdf.finish()
}

#[test]
fn one_red_rectangle_page() {
    let out = one_page_document();
    assert!(out.starts_with(b"%PDF-1.7\n%\xB5\xED\xAE\xFB\n"));
    assert_eq!(count(&out, b"/Type /Page\n"), 1);
    assert_eq!(count(&out, b"/Type /Pages\n"), 1);
    assert!(find(&out, b"/MediaBox [ 0 0 200 100 ]").is_some());
    assert!(find(&out, b"255 0 0 sc 10 10 50 50 re f\n").is_some());
    assert!(find(&out, b"0.75 0 0 -0.75 0 100 cm\n").is_some());
    assert!(find(&out, b"xref\n0 6\n").is_some());
    let (offsets, _) = xref_offsets(&out);
    assert_eq!(offsets.len(), 6);
    assert!(out.ends_with(b"%%EOF\n"));
}

#[test]
fn one_page_exact_bytes() {
    let out = one_page_document();
    let stream = "/DeviceRGB cs /DeviceRGB CS\n0.75 0 0 -0.75 0 100 cm\n255 0 0 sc 10 10 50 50 re f\n";
    let mut expected: Vec<u8> = b"%PDF-1.7\n%\xB5\xED\xAE\xFB\n".to_vec();
    let o3 = expected.len();
    expected.extend_from_slice(
        format!("3 0 obj\n<<  /Length 4 0 R\n>>\nstream\n{}endstream\nendobj\n", stream).as_bytes(),
    );
    let o4 = expected.len();
    expected.extend_from_slice(format!("4 0 obj\n{}\nendobj\n", stream.len()).as_bytes());
    let o5 = expected.len();
    expected.extend_from_slice(
        b"5 0 obj\n<<  /Type /Page\n    /Parent 2 0 R\n    /Resources << >>\n    /MediaBox [ 0 0 200 100 ]\n    /Contents 3 0 R\n>>\nendobj\n",
    );
    let o2 = expected.len();
    expected.extend_from_slice(b"2 0 obj\n<<  /Type /Pages\n    /Count 1\n    /Kids [ 5 0 R ]\n>>\nendobj\n");
    let o1 = expected.len();
    expected.extend_from_slice(b"1 0 obj\n<<  /Type /Catalog\n    /Pages 2 0 R\n>>\nendobj\n");
    let sx = expected.len();
    expected.extend_from_slice(b"xref\n0 6\n0000000000 65535 f \n");
    for o in [o1, o2, o3, o4, o5] {
        expected.extend_from_slice(format!("{:010} 00000 n \n", o).as_bytes());
    }
    expected.extend_from_slice(
        format!("trailer\n<<  /Size 6\n    /Root 1 0 R\n>>\nstartxref\n{}\n%%EOF\n", sx).as_bytes(),
    );
    assert_eq!(text(&out), text(&expected));
    assert_eq!(out, expected);
}

#[test]
fn no_pages() {
    let pdf = Pdf::new(Vec::new());
    let out = pdf.finish();
    assert!(find(&out, b"/Count 0\n").is_some());
    assert!(find(&out, b"/Kids [ ]").is_some());
    assert!(find(&out, b"xref\n0 3\n").is_some());
    let (offsets, sx) = xref_offsets(&out);
    assert_eq!(offsets.len(), 3);
    assert_eq!(&out[offsets[1]..offsets[1] + 8], b"1 0 obj\n");
    assert_eq!(&out[offsets[2]..offsets[2] + 8], b"2 0 obj\n");
    assert_eq!(&out[sx..sx + 5], b"xref\n");
    assert!(out.ends_with(b"%%EOF\n"));
}

#[test]
fn failing_drawing_writes_nothing_of_the_page() {
    let mut pdf = Pdf::new(Vec::new());
    pdf.render_page(200, 100, red_square).unwrap();
    let r = pdf.render_page(300, 300, |c: &mut Canvas| -> Result<(), io::Error> {
        c.rectangle(1, 2, 3, 4, 5, 6, 7);
        Err(io::Error::new(io::ErrorKind::Other, "disk full"))
    });
    let e = r.unwrap_err();
    assert_eq!(e.kind(), io::ErrorKind::Other);
    assert_eq!(e.to_string(), "disk full");
    let out = pdf.finish();
    assert_eq!(out, one_page_document());
    assert!(find(&out, b"1 2 3 sc").is_none());
    assert!(find(&out, b"6 0 obj").is_none());
}

#[test]
fn count_and_kids_follow_call_order() {
    let mut pdf = Pdf::new(Vec::new());
    for (w, h) in [(10u32, 20u32), (30, 40), (50, 60)] {
        pdf.render_page(w, h, |_c: &mut Canvas| -> Result<(), io::Error> { Ok(()) }).unwrap();
    }
    let out = pdf.finish();
    assert!(find(&out, b"/Count 3\n").is_some());
    assert!(find(&out, b"/Kids [ 5 0 R 8 0 R 11 0 R ]").is_some());
    let (offsets, _) = xref_offsets(&out);
    let first = find(&out, b"[ 0 0 10 20 ]").unwrap();
    let second = find(&out, b"[ 0 0 30 40 ]").unwrap();
    let third = find(&out, b"[ 0 0 50 60 ]").unwrap();
    assert!(offsets[5] < first && first < offsets[6]);
    assert!(offsets[8] < second && second < offsets[9]);
    assert!(offsets[11] < third && third < offsets[2]);
}

#[test]
fn xref_offsets_point_at_objects() {
    let mut pdf = Pdf::new(b"leading bytes\n".to_vec());
    for i in 0..4i32 {
        pdf.render_page(612, 792, |c: &mut Canvas| -> Result<(), io::Error> {
            for k in 0..i {
                c.rectangle(k as u8, 0, 255, -k, k * 3, 100, -20);
            }
            Ok(())
        })
        .unwrap();
    }
    let out = pdf.finish();
    assert!(out.starts_with(b"leading bytes\n%PDF-1.7\n"));
    let (offsets, sx) = xref_offsets(&out);
    assert_eq!(offsets.len(), 15);
    for (id, &o) in offsets.iter().enumerate().skip(1) {
        let header = format!("{} 0 obj\n", id);
        assert_eq!(&out[o..o + header.len()], header.as_bytes());
    }
    assert_eq!(&out[sx..sx + 5], b"xref\n");
    assert!(find(&out, b"2 0 255 sc -2 6 100 -20 re f\n").is_some());
}

fn check_stream_lengths(out: &[u8]) {
    let (offsets, _) = xref_offsets(out);
    let mut id = 3;
    while id + 2 < offsets.len() {
        let obj = &out[offsets[id]..offsets[id + 1]];
        let head = format!("{} 0 obj\n<<  /Length {} 0 R\n>>\nstream\n", id, id + 1);
        assert!(obj.starts_with(head.as_bytes()));
        assert!(obj.ends_with(b"endstream\nendobj\n"));
        let inner = obj.len() - head.len() - b"endstream\nendobj\n".len();
        let len_obj = text(&out[offsets[id + 1]..offsets[id + 2]]);
        assert_eq!(len_obj, format!("{} 0 obj\n{}\nendobj\n", id + 1, inner));
        id += 3;
    }
    assert_eq!(id, offsets.len());
}

#[test]
fn stream_length_of_empty_drawing() {
    let mut pdf = Pdf::new(Vec::new());
    pdf.render_page(1, 7, |_c: &mut Canvas| -> Result<(), io::Error> { Ok(()) }).unwrap();
    let out = pdf.finish();
    let preamble = "/DeviceRGB cs /DeviceRGB CS\n0.75 0 0 -0.75 0 7 cm\n";
    assert!(find(&out, format!("4 0 obj\n{}\nendobj\n", preamble.len()).as_bytes()).is_some());
    check_stream_lengths(&out);
}

#[test]
fn stream_length_of_large_drawing() {
    let mut pdf = Pdf::new(Vec::new());
    pdf.render_page(800, 600, |c: &mut Canvas| -> Result<(), io::Error> {
        for k in 0..500i32 {
            c.rectangle(255, 255, 255, k, -k, i32::MAX, i32::MIN);
        }
        Ok(())
    })
    .unwrap();
    pdf.render_page(10, 10, red_square).unwrap();
    let out = pdf.finish();
    assert!(find(&out, b"255 255 255 sc 499 -499 2147483647 -2147483648 re f\n").is_some());
    check_stream_lengths(&out);
}

#[test]
fn length_object_follows_its_stream() {
    let mut pdf = Pdf::new(Vec::new());
    pdf.render_page(200, 100, red_square).unwrap();
    pdf.render_page(u32::MAX, 0, red_square).unwrap();
    let out = pdf.finish();
    assert!(find(&out, b"/MediaBox [ 0 0 4294967295 0 ]").is_some());
    let (offsets, _) = xref_offsets(&out);
    for c in [3usize, 6] {
        let obj = text(&out[offsets[c]..offsets[c + 1]]);
        assert!(obj.contains(&format!("/Length {} 0 R", c + 1)));
        assert!(obj.ends_with("endobj\n"));
        assert!(text(&out[offsets[c + 2]..]).contains(&format!("/Contents {} 0 R", c)));
    }
}

#[test]
fn startxref_gives_xref_position() {
    let out = one_page_document();
    let (_, sx) = xref_offsets(&out);
    assert_eq!(Some(sx), find(&out, b"xref\n"));
    assert!(out.ends_with(format!("startxref\n{}\n%%EOF\n", sx).as_bytes()));
}
