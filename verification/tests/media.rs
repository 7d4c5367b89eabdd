use nodem_rs::media::pkg::{optimize_stream, rle_fixed_stream};
use nodem_rs::media::{Identifier, Media, Ret};
use nodem_rs::stream::BinaryStream;

fn bits_of(stream: &[u8], n: usize) -> Vec<u8> {
    let mut reader = BinaryStream::new(stream);
    let mut out = vec![];
    for _ in 0..n {
        out.push(reader.read_bit());
    }
    out
}

fn raw_bits(bytes: &[u8], n: usize) -> Vec<u8> {
    (0..n).map(|k| (bytes[k / 8] >> (7 - k % 8)) & 1).collect()
}

#[test]
fn media_import_page_then_get_page() {
    let mut media = Media::default();
    media.import_page(7, "home", b"\x00\x20\x10");
    let page = media.get_page(7);
    assert_eq!(page.source, 2);
    assert_eq!(page.id, b"home".to_vec());
    assert_eq!(page.content, b"\x00\x20\x10".to_vec());
    assert_eq!(media.get_page(8).source, 255);
}

#[test]
fn media_import_page_replaces_index() {
    let mut media = Media::default();
    media.import_page(1, "a", b"one");
    media.import_page(2, "b", b"two");
    media.import_page(1, "c", b"three");
    assert_eq!(media.get_page(1).content, b"three".to_vec());
    assert_eq!(media.get_page(2).content, b"two".to_vec());
    assert_eq!(media.import_pages.clone().unwrap().last(), Some(&255u8));
}

#[test]
fn media_remove_page() {
    let mut media = Media::default();
    media.import_page(3, "x", b"abc");
    media.remove_page(3);
    assert_eq!(media.get_page(3).content.len(), 0);
}

#[test]
fn media_import_image_then_get_image() {
    let mut media = Media::default();
    // 2 x 1 pixels: white, black
    let pixels = [255u8, 255, 255, 0, 0, 0];
    media.import_image(5, "dot", &pixels, 2, 1, false, 100, 100);
    let image = media.get_image(Identifier::Index(5));
    assert_eq!(image.source, 2);
    assert_eq!(image.data, vec![1u8, 2, 1, 0, 0b1000_0000]);
    assert!(image.mask.is_none());
}

#[test]
fn media_generated_pkg_loads() {
    let mut media = Media::default();
    media.import_page(4, "p", b"\x00\x20\x30\x10");
    let pkg = media.generate_pkg(0b100, false);
    assert_eq!(&pkg[0..4], b"PKG0");
    let mut other = Media::default();
    // The loader wants three bytes for every section header, the end mark
    // included, so a package that ends right after its end mark reports an
    // early end once every library is attached.
    assert!(other.load_pkg(&pkg, 1) == Ret::UnexpectedEnd);
    let page = other.get_page(4);
    assert_eq!(page.source, 1);
    assert_eq!(page.content, b"\x00\x20\x30\x10".to_vec());
}

#[test]
fn media_bad_header_refused() {
    let mut media = Media::default();
    assert!(media.load_pkg(b"XXXX0000000000", 1) == Ret::BadHeader);
}

#[test]
fn media_crc_failure() {
    let mut media = Media::default();
    media.import_page(4, "p", b"\x01");
    let mut pkg = media.generate_pkg(0b100, false);
    let last = pkg.len() - 2;
    pkg[last] ^= 0xff;
    let mut other = Media::default();
    assert!(other.load_pkg(&pkg, 1) == Ret::CRCFailure);
}

#[test]
fn rle_stream_decodes_to_same_bits() {
    let source = [0xffu8, 0xff, 0x00, 0x0f, 0xaa, 0x55, 0x00, 0x00];
    let rle = rle_fixed_stream(&source);
    assert_eq!(rle[0], 1);
    assert_eq!(bits_of(&rle, 64), raw_bits(&source, 64));
}

#[test]
fn optimize_stream_keeps_shorter() {
    let mut raw = vec![0u8];
    raw.extend_from_slice(&[0u8; 16]);
    let opt = optimize_stream(&raw, true);
    assert!(opt.len() < raw.len());
    assert_eq!(opt[0], 1);
    assert_eq!(bits_of(&opt, 128), vec![0u8; 128]);
    let kept = optimize_stream(&[0u8, 0xaa], true);
    assert_eq!(kept, vec![0u8, 0xaa]);
    let off = optimize_stream(&raw, false);
    assert_eq!(off, raw);
}

#[test]
fn media_clear_drops_imports() {
    let mut media = Media::default();
    media.import_page(1, "a", b"x");
    media.clear();
    assert_eq!(media.get_page(1).source, 255);
    assert_eq!(media.import_pages, Some(vec![255u8]));
}

#[test]
fn media_inspect_lists_pages() {
    let mut media = Media::default();
    media.import_page(9, "menu", b"abc");
    let csv = String::from_utf8(media.inspect(255)).unwrap();
    assert!(csv.contains("page_idx,id,source,size\r\n9,\"menu\",2,3\r\n"));
    assert!(csv.ends_with("@0\r\n"));
}

/// A package of `sections` behind a header whose checksum is right.
fn package(sections: &[u8]) -> Vec<u8> {
    let mut d = b"PKG0".to_vec();
    let len = (12 + sections.len()) as u32;
    d.extend_from_slice(&len.to_le_bytes());
    d.extend_from_slice(&[0, 0]);
    d.extend_from_slice(sections);
    let mut crc: u16 = 0x1002;
    for b in &d[12..] {
        crc = crc.wrapping_add(*b as u16);
    }
    d[8] = (crc & 0xff) as u8;
    d[9] = (crc >> 8) as u8;
    d
}

#[test]
fn media_short_lib_read() {
    let mut media = Media::default();
    assert!(media.load_pkg(&package(&[50, 5, 0]), 1) == Ret::ShortLibRead);
}

#[test]
fn media_end_mark_loads() {
    let mut media = Media::default();
    // A page library with page 6 ("x" = [0x41]), then the end mark.
    let pkg = package(&[50, 6, 0, 6, 0, 1, 0, 0x41, 255, 255, 0, 0]);
    assert!(media.load_pkg(&pkg, 1) == Ret::Success);
    assert_eq!(media.get_page(6).content, vec![0x41u8]);
    assert_eq!(media.get_page(6).source, 1);
}

#[test]
fn media_truncated_library() {
    let mut media = Media::default();
    assert!(media.load_pkg(&package(&[50, 9, 0, 1, 2]), 1) == Ret::UnexpectedEnd);
}

#[test]
fn media_log_lists_imports() {
    let mut media = Media::default();
    media.import_image(3, "i", &[255u8, 255, 255], 1, 1, false, 100, 100);
    let lines: Vec<String> = media.log().into_iter().map(|l| String::from_utf8(l).unwrap()).collect();
    assert_eq!(lines[0], "img #2.3 [    5b] [    0b]");
}

#[test]
fn border_import_reads_markers_and_pieces() {
    // A 4x4 picture: red markers at the corners of the top row and the left
    // column give one pixel bands around a 2x2 middle.
    let r = [255u8, 0, 0, 255];
    let w = [255u8, 255, 255, 255];
    let b = [0u8, 0, 0, 255];
    let rows = [[r, w, w, r], [b, w, w, b], [w, w, w, b], [r, b, w, w]];
    let mut pixels = Vec::new();
    for row in rows.iter() {
        for p in row.iter() {
            pixels.extend_from_slice(p);
        }
    }
    let mut media = Media::default();
    media.import_border(3, "box", &pixels, 4, 4);
    let border = media.get_border(Identifier::Index(3));
    assert_eq!(border.source, 2);
    assert_eq!((border.n_h, border.e_w, border.s_h, border.w_w, border.x_w, border.y_h), (1, 1, 1, 1, 2, 2));
    let expected: [&[u8]; 8] = [&[0, 0xC0], &[0, 0x80], &[0, 0x00], &[0, 0x80], &[0, 0x40], &[0, 0x80], &[0, 0x40], &[0, 0x80]];
    for k in 0..8 {
        assert_eq!(border.data[k].as_slice(), expected[k]);
    }
    let by_name = media.get_border(Identifier::Name("box"));
    assert_eq!(by_name.x_w, 2);
}

#[test]
fn border_import_needs_two_marker_runs() {
    // One run of red in the top row marks no east band: nothing is imported.
    let mut media = Media::default();
    let before = media.get_border(Identifier::Index(3));
    let pixels = [255u8, 0, 0, 255, 255, 0, 0, 255, 9, 9, 9, 255, 9, 9, 9, 255];
    media.import_border(3, "one", &pixels, 4, 1);
    let after = media.get_border(Identifier::Index(3));
    assert_eq!(before.source, after.source);
    assert_eq!(media.import_borders, None);
    // A picture too short for its size imports nothing either.
    media.import_border(3, "short", &[255, 0, 0, 255], 2, 1);
    assert_eq!(media.import_borders, None);
}

#[test]
fn media_inspect_empty_lists_every_table() {
    let media = Media::default();
    let csv = String::from_utf8(media.inspect(255)).unwrap();
    assert_eq!(
        csv,
        "image_idx,id,source,type,width,height\r\n\
         border_idx,id,source,n,e,s,w,h,v\r\n\
         10,\"Solid\",0,1,1,1,1,1,1\r\n\
         font_idx,id,source,height,base,mono\r\n\
         page_idx,id,source,size\r\n\
         program_idx,id,source,size\r\n\
         @0\r\n"
    );
}

#[test]
fn media_inspect_lists_programs() {
    let mut media = Media::default();
    media.import_program(7, "run", b"\x01\x02");
    let csv = String::from_utf8(media.inspect(255)).unwrap();
    assert!(csv.contains("program_idx,id,source,size\r\n7,\"run\",2,2\r\n@0\r\n"));
}

#[test]
fn media_generated_pkg_carries_programs() {
    let mut media = Media::default();
    media.import_program(7, "run", b"\x01\x02\x03");
    let pkg = media.generate_pkg(0b100, false);
    let n = pkg.len();
    assert_eq!(u32::from_le_bytes([pkg[4], pkg[5], pkg[6], pkg[7]]) as usize, n);
    // Each library is a section (magic, length, entries, end mark); only
    // the program library holds an entry. The package's end mark follows.
    assert_eq!(
        &pkg[10..],
        &[20u8, 1, 0, 255, 40, 1, 0, 255, 30, 1, 0, 255, 50, 1, 0, 255,
          60, 11, 0, 7, 3, b'r', b'u', b'n', 3, 0, 1, 2, 3, 255, 255][..]
    );
    let mut other = Media::default();
    other.load_pkg(&pkg, 1);
    let program = other.get_program(7);
    assert_eq!(program.source, 1);
    assert_eq!(program.data, vec![1u8, 2, 3]);
}

#[test]
fn media_remove_font_leaves_empty_font() {
    let mut media = Media::default();
    media.remove_font(5);
    assert_eq!(media.import_fonts, Some(vec![5u8, 0, 4, 0, 0, 0, 0, 0, 255]));
}

#[test]
fn media_import_font_reads_sheet() {
    // A 4 x 4 sheet: one cell (columns 1-2), code row 1, glyph rows 2-3.
    let mut px = vec![0u8; 4 * 4 * 4];
    for i in 0..16 {
        px[i * 4 + 3] = 255;
    }
    let mut set = |x: usize, y: usize, rgb: (u8, u8, u8)| {
        let p = (y * 4 + x) * 4;
        px[p] = rgb.0;
        px[p + 1] = rgb.1;
        px[p + 2] = rgb.2;
    };
    set(1, 0, (255, 0, 0));
    set(2, 0, (255, 0, 0));
    set(0, 1, (0, 0, 255));
    set(0, 2, (255, 0, 0));
    set(0, 3, (255, 0, 0));
    set(1, 1, (0, 0, 255));
    set(1, 2, (255, 255, 255));
    let mut media = Media::default();
    media.import_font(3, "f", &px, 4, 4);
    let payload = vec![1u8, 1, 1, 1, 1, 1, 8, 0, 6, 0, 1, 1, 0, 0, 0, 0x80];
    let mut expected = vec![3u8, 1, b'f', payload.len() as u8, 0];
    expected.extend_from_slice(&payload);
    expected.push(255);
    assert_eq!(media.import_fonts, Some(expected));
}
