use nodem_rs::dom::DOM;
use nodem_rs::surface::Surface;
use nodem_rs::Size;

fn str_to_bitmap(s: &str) -> Vec<u8> {
    let mut v = vec![];
    for (i, c) in s.chars().enumerate() {
        if i % 8 == 0 {
            v.push(0);
        }
        if c != ' ' {
            v[i / 8] |= 1 << (7 - (i % 8));
        }
    }
    v
}

fn run_dom<F: FnMut(&mut DOM)>(size: Size, mut func: F, expected: &[&str]) -> bool {
    let generated = vec![0u8; (size.width as usize * size.height as usize + 7) / 8];
    let mut surface = Surface::new(generated, size.width, size.height);
    let mut dom = DOM::new();
    func(&mut dom);
    surface.update(&mut dom);
    let ok = surface.framebuffer == str_to_bitmap(&expected.concat());
    if !ok {
        for y in 0..size.height as usize {
            let mut line = String::new();
            for x in 0..size.width as usize {
                let i = y * size.width as usize + x;
                line.push(if surface.framebuffer[i / 8] & (1 << (7 - i % 8)) != 0 { '#' } else { ' ' });
            }
            println!("|{}|", line);
        }
    }
    ok
}

#[test]
fn dom_border() {
    assert_eq!(
        true,
        run_dom(
            Size { width: 16, height: 10 },
            |dom| {
                dom.from_xml("<N border=solid padding=\"3 4\"></N>");
            },
            &[
                "############    ",
                "#          #    ",
                "#          #    ",
                "#          #    ",
                "#          #    ",
                "#          #    ",
                "#          #    ",
                "#          #    ",
                "#          #    ",
                "############    ",
            ]
        )
    );
}

#[test]
fn dom_margin() {
    assert_eq!(
        true,
        run_dom(
            Size { width: 16, height: 10 },
            |dom| {
                dom.from_xml("<N border=solid padding=2 margin=\"2 1\"></N>");
            },
            &[
                "                ",
                "                ",
                " ########       ",
                " #      #       ",
                " #      #       ",
                " #      #       ",
                " #      #       ",
                " #      #       ",
                " #      #       ",
                " ########       ",
            ]
        )
    );
}

#[test]
fn dom_flex() {
    assert_eq!(
        true,
        run_dom(
            Size { width: 16, height: 10 },
            |dom| {
                dom.from_xml("<N width=flex border=solid padding=2></N>");
            },
            &[
                "################",
                "#              #",
                "#              #",
                "#              #",
                "#              #",
                "#              #",
                "#              #",
                "################",
                "                ",
                "                ",
            ]
        )
    );
    assert_eq!(
        true,
        run_dom(
            Size { width: 16, height: 10 },
            |dom| {
                dom.from_xml("<N height=flex border=solid padding=2></N>");
            },
            &[
                "########        ",
                "#      #        ",
                "#      #        ",
                "#      #        ",
                "#      #        ",
                "#      #        ",
                "#      #        ",
                "#      #        ",
                "#      #        ",
                "########        ",
            ]
        )
    );
    assert_eq!(
        true,
        run_dom(
            Size { width: 16, height: 10 },
            |dom| {
                dom.from_xml("<N width=flex height=flex border=solid padding=2></N>");
            },
            &[
                "################",
                "#              #",
                "#              #",
                "#              #",
                "#              #",
                "#              #",
                "#              #",
                "#              #",
                "#              #",
                "################",
            ]
        )
    );
}

#[test]
fn dom_align() {
    assert_eq!(
        true,
        run_dom(
            Size { width: 16, height: 16 },
            |dom| {
                dom.from_xml(
                    "
            <N width=flex height=flex>
                <N align=start border=solid></N>
                <N align=center border=solid></N>
                <N align=end border=solid></N>
            </N>",
                );
            },
            &[
                "####            ",
                "#  #            ",
                "#  #            ",
                "####            ",
                "                ",
                "                ",
                "    ####        ",
                "    #  #        ",
                "    #  #        ",
                "    ####        ",
                "                ",
                "                ",
                "        ####    ",
                "        #  #    ",
                "        #  #    ",
                "        ####    ",
            ]
        )
    );
    assert_eq!(
        true,
        run_dom(
            Size { width: 16, height: 16 },
            |dom| {
                dom.from_xml(
                    "
            <N width=flex height=flex vertical>
                <N align=start border=solid></N>
                <N align=center border=solid></N>
                <N align=end border=solid></N>
            /N>",
                );
            },
            &[
                "####            ",
                "#  #            ",
                "#  #            ",
                "####            ",
                "      ####      ",
                "      #  #      ",
                "      #  #      ",
                "      ####      ",
                "            ####",
                "            #  #",
                "            #  #",
                "            ####",
                "                ",
                "                ",
                "                ",
                "                ",
            ]
        )
    );
}
