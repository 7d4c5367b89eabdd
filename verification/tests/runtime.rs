use nodem_rs::control::media::{MediaPkg, MEDIA_SIZE};
use nodem_rs::control::{Control, LineCommand, LoaderRet, PkgAction};
use nodem_rs::dom::DOM;
use nodem_rs::media::{Identifier, Media, SYS_LOGO};
use nodem_rs::runtime;
use nodem_rs::surface::Surface;
use nodem_rs::{Point, SCREEN_BUFFER_SIZE, SCREEN_HEIGHT, SCREEN_WIDTH};

/// A system package with a 2 x 1 logo.
fn sys_pkg() -> Vec<u8> {
    let mut media = Media::default();
    media.import_image(SYS_LOGO, "logo", &[255u8, 255, 255, 0, 0, 0], 2, 1, false, 100, 100);
    media.import_page(0, "home", b"");
    media.generate_pkg(0b100, false)
}

fn surface() -> Surface {
    Surface::new(vec![0u8; SCREEN_BUFFER_SIZE], SCREEN_WIDTH, SCREEN_HEIGHT)
}

#[test]
fn control_take_line_kinds() {
    let mut c = Control::default();
    assert!(c.take_line("info") == LineCommand::Info);
    assert!(c.take_line("@c,0") == LineCommand::Other);
    assert!(c.take_line("pkgx") == LineCommand::Other);
    assert!(c.take_line("pkg") == LineCommand::Pkg);
    assert!(c.pkg_byte(1, 0) == PkgAction::Nothing);
}

#[test]
fn control_loader_progress() {
    let mut c = Control::default();
    assert_eq!(c.loader_progress(), None);
    c.take_line("pkg");
    c.pkg_byte(4, 0);
    c.pkg_byte(0, 0);
    c.pkg_byte(0, 0);
    assert_eq!(c.loader_progress(), Some(0));
    assert!(c.pkg_byte(0, 10) == PkgAction::Report(1));
    assert!(c.pkg_byte(9, 0) == PkgAction::Data(0));
    assert!(c.pkg_byte(9, 0) == PkgAction::Data(1));
    assert_eq!(c.loader_progress(), Some(127));
}

#[test]
fn media_pkg_buffer_keeps_bytes() {
    let mut pkg = MediaPkg::new();
    assert_eq!(pkg.process_loader_start(3), MEDIA_SIZE);
    pkg.process_loader_data(&[7], 0);
    pkg.process_loader_data(&[8], MEDIA_SIZE);
    let mut media = Media::default();
    // Seven followed by zeros is no package.
    assert!(pkg.process_loader_end(&mut media) == LoaderRet::PKGFailed);
}

#[test]
fn media_pkg_buffer_loads_package() {
    let data = sys_pkg();
    let mut pkg = MediaPkg::new();
    for (i, b) in data.iter().enumerate() {
        pkg.process_loader_data(&[*b], i);
    }
    let mut media = Media::default();
    assert!(pkg.process_loader_end(&mut media) == LoaderRet::Success);
    let logo = media.get_image(Identifier::Index(SYS_LOGO));
    assert_eq!(logo.source, 2);
    assert_eq!(logo.data, vec![1u8, 2, 1, 0, 0b1000_0000]);
}

#[test]
fn runtime_intro_then_page() {
    let pkg = sys_pkg();
    let mut rt = runtime::DOM::new(vec![0u8; SCREEN_BUFFER_SIZE], SCREEN_WIDTH, SCREEN_HEIGHT);
    assert_eq!(rt.run_cnt(), 0);
    assert!(rt.run(&pkg, Point { x: 0, y: 0 }));
    assert_eq!(rt.run_cnt(), 1);
    assert_eq!(rt.surface.media.get_image(Identifier::Index(SYS_LOGO)).source, 0);
    // The logo is centred: 2 x 1 pixels on 128 x 64, its first pixel at (63, 31)
    // and dark, the second one light.
    let row = 31 * (SCREEN_WIDTH as usize / 8);
    assert_eq!(rt.surface.framebuffer[row + 7], 0b0000_0001);
    for _ in 1..(SCREEN_HEIGHT as usize + runtime::INTRO_WAIT) {
        rt.run(&pkg, Point { x: 0, y: 0 });
    }
    assert_eq!(rt.run_cnt(), SCREEN_HEIGHT as usize + runtime::INTRO_WAIT);
    rt.run(&pkg, Point { x: 0, y: 0 });
    assert_eq!(rt.run_cnt(), SCREEN_HEIGHT as usize + runtime::INTRO_WAIT + 1);
}

#[test]
fn runtime_counter_wraps_to_after_intro() {
    let mut rt = runtime::DOM::new(vec![0u8; SCREEN_BUFFER_SIZE], SCREEN_WIDTH, SCREEN_HEIGHT);
    rt.loop_cnt = usize::MAX;
    rt.run(&sys_pkg(), Point { x: 0, y: 0 });
    assert_eq!(rt.run_cnt(), SCREEN_HEIGHT as usize + runtime::INTRO_WAIT);
}

#[test]
fn media_log_lines() {
    let mut media = Media::default();
    media.import_page(4, "p", b"abc");
    let lines: Vec<String> = media.log().into_iter().map(|l| String::from_utf8(l).unwrap()).collect();
    assert!(lines.contains(&"pag #2.4 [    3b]".to_string()));
}

#[test]
fn surface_commands_draw() {
    let mut s = surface();
    assert_eq!(s.process_line("@p,1,0,1"), Some(b"@0\r\n".to_vec()));
    assert_eq!(s.framebuffer[0], 0b0100_0000);
    assert_eq!(s.process_line("@c,1"), Some(b"@0\r\n".to_vec()));
    assert!(s.framebuffer.iter().all(|b| *b == 0xff));
    assert_eq!(s.process_line("@f,0,0,8,1,0"), Some(b"@0\r\n".to_vec()));
    assert_eq!(s.framebuffer[0], 0);
    assert_eq!(s.framebuffer[1], 0xff);
    assert_eq!(s.process_line("@C,300,2"), Some(b"@0\r\n".to_vec()));
    assert_eq!(s.palette, [255, 2]);
    assert_eq!(s.process_line("@zz,1"), Some(b"@1\r\n".to_vec()));
    assert_eq!(s.process_line("c,1"), None);
}

#[test]
fn dom_property_commands() {
    let mut dom = DOM::new();
    let media = Media::default();
    dom.process_line("xml=<N><N></N></N>", &media);
    assert_eq!(dom.process_line("$1.padding=1 2", &media), Some(b"$0\r\n".to_vec()));
    let p = &dom.paddings[dom.nodes[1].plot.padding_idx as usize];
    assert_eq!((p.n, p.e, p.s, p.w), (1, 2, 1, 2));
    assert_eq!(dom.process_line("$1.border=SOLID", &media), Some(b"$0\r\n".to_vec()));
    assert_eq!(dom.styles[dom.nodes[1].plot.style_idx as usize].border_idx, nodem_rs::BORDER_RECT);
    assert_eq!(dom.process_line("$1.width=content", &media), Some(b"$0\r\n".to_vec()));
    assert_eq!(dom.nodes[1].plot.size.width, nodem_rs::node::WIDTH_CONTENT);
    assert_eq!(dom.process_line("$1.font=x", &media), Some(b"$0\r\n".to_vec()));
    assert_eq!(dom.process_line("pkg=1", &media), None);
    assert_eq!(dom.nodes[0].first_child, nodem_rs::NODE_MAX);
}

#[test]
fn media_import_empty_font() {
    let mut media = Media::default();
    media.import_font(3, "f", &[], 0, 0);
    let font = media.get_font(Identifier::Index(3));
    assert_eq!(font.source, 2);
    assert_eq!(font.pack_count, 0);
    media.clear();
    assert_eq!(media.import_fonts.clone().unwrap(), vec![255u8]);
}
