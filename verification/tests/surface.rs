use nodem_rs::surface::Surface;
use nodem_rs::{Area, Point, Size};

fn str_to_bitmap(s: &str) -> Vec<u8> {
    let mut v = vec![];
    for (i, c) in s.chars().enumerate() {
        if i % 8 == 0 {
            v.push(0);
        }
        if c != ' ' {
            v[i / 8] |= 1 << (7 - (i % 8));
        }
    }
    v
}

fn run_surface<F: FnMut(&mut Surface)>(size: Size, mut func: F, expected: &str) -> bool {
    let generated = vec![0u8; (size.width as usize * size.height as usize + 7) / 8];
    let mut surface = Surface::new(generated, size.width, size.height);
    surface.clear(0);
    func(&mut surface);
    surface.framebuffer == str_to_bitmap(expected)
}

#[test]
fn surface_draw() {
    assert_eq!(
        true,
        run_surface(
            Size { width: 8, height: 8 },
            |surface| {
                surface.draw_rect(Area { point: Point { x: 0, y: 0 }, size: Size { width: 8, height: 8 } }, 1);
                surface.draw_pixel(Point { x: 5, y: 6 }, 1);
                surface.draw_hline(Point { x: 2, y: 2 }, 3, 1);
                surface.draw_vline(Point { x: 5, y: 2 }, 3, 1);
                surface.fill_rect(Area { point: Point { x: 2, y: 5 }, size: Size { width: 2, height: 2 } }, 1);
            },
            &["########", "#      #", "# #### #", "#    # #", "#    # #", "# ##   #", "# ## # #", "########"].concat()
        )
    );
}

#[test]
fn surface_line() {
    assert_eq!(
        true,
        run_surface(
            Size { width: 8, height: 8 },
            |surface| {
                surface.draw_line(Point { x: 1, y: 1 }, Point { x: 5, y: 6 }, 1);
            },
            &["        ", " #      ", "  #     ", "   #    ", "   #    ", "    #   ", "     #  ", "        "].concat()
        )
    );
}

fn text_size_of(text: &str) -> (u16, u16) {
    let mut surface = Surface::new(vec![0u8; 8], 8, 8);
    let s = surface.get_text_size(nodem_rs::media::Identifier::Index(0), text);
    (s.width, s.height)
}

#[test]
fn text_size_placeholders() {
    // Without fonts every glyph is a placeholder of the dummy font's mono
    // width 3, followed by one pixel of glyph spacing.
    assert_eq!(text_size_of(""), (0, 0));
    assert_eq!(text_size_of("ab"), (7, 0));
    assert_eq!(text_size_of("\0ab"), (0, 0));
}

#[test]
fn text_size_spaces_and_lines() {
    assert_eq!(text_size_of(" "), (3, 4));
    assert_eq!(text_size_of("{spac:5} "), (5, 4));
    assert_eq!(text_size_of("a{nl}b"), (3, 1));
    assert_eq!(text_size_of("a\nb"), (3, 1));
    assert_eq!(text_size_of("{kern: 3 }ab"), (9, 0));
}
