use nodem_rs::control::{decode_values, Control, LoaderRet, PkgAction};
use nodem_rs::decimal::{parse_i8, parse_u16, parse_u8};
use nodem_rs::dom::{Ret, DOM};
use nodem_rs::media::Media;
use nodem_rs::stream::Stream;
use nodem_rs::xmlparser::{XmlEvent, XmlParser};

#[test]
fn decode_values_css_rules() {
    assert_eq!(decode_values("3"), [3, 3, 3, 3]);
    assert_eq!(decode_values("3 4"), [3, 4, 3, 4]);
    assert_eq!(decode_values("1 2 3"), [1, 2, 3, 2]);
    assert_eq!(decode_values("1 2 3 4"), [1, 2, 3, 4]);
    assert_eq!(decode_values("-1 x 5"), [-1, -1, 5, -1]);
    assert_eq!(decode_values(""), [0, 0, 0, 0]);
}

#[test]
fn parse_numbers() {
    assert_eq!(parse_u8("255"), Some(255));
    assert_eq!(parse_u8("256"), None);
    assert_eq!(parse_u8("+7"), Some(7));
    assert_eq!(parse_i8("-128"), Some(-128));
    assert_eq!(parse_u16("65535"), Some(65535));
    assert_eq!(parse_u16(""), None);
}

#[test]
fn stream_reads_little_endian() {
    let data = [1u8, 0x34, 0x12, 0xff, 9];
    let mut s = Stream::new(&data);
    assert_eq!(s.read_u8(), 1);
    assert_eq!(s.read_u16(), 0x1234);
    assert_eq!(s.read_i8(), -1);
    assert_eq!(s.available(), 1);
    assert_eq!(s.read_u16(), 0);
    assert!(!s.ok);
}

#[test]
fn xml_events() {
    let mut p = XmlParser::new();
    let xml = "<N a=1 b=\"x y\">text</N>";
    let mut names = vec![];
    loop {
        match p.next(xml).unwrap() {
            XmlEvent::StartDocument {} => names.push("start".to_string()),
            XmlEvent::StartElement { name } => names.push(format!("<{}", name)),
            XmlEvent::Attribute { key, value } => names.push(format!("{}={}", key, value)),
            XmlEvent::CData { data } => names.push(format!("'{}'", data)),
            XmlEvent::EndElement { name } => names.push(format!("</{}", name)),
            XmlEvent::EndDocument {} => break,
        }
    }
    assert_eq!(names, vec!["start", "<N", "a=1", "b=x y", "'text'", "</N"]);
}

#[test]
fn loader_takes_length_then_data() {
    let mut c = Control::default();
    assert!(!c.is_loader_busy());
    c.start_pkg();
    assert!(c.pkg_byte(3, 0) == PkgAction::Nothing);
    assert!(c.pkg_byte(0, 0) == PkgAction::Nothing);
    assert!(c.pkg_byte(0, 0) == PkgAction::Nothing);
    assert_eq!(c.loader_wants_start(), Some(3));
    assert!(c.pkg_byte(0, 100) == PkgAction::Report(1));
    assert!(c.get_loader_cts());
    assert!(c.pkg_byte(7, 0) == PkgAction::Data(0));
    assert!(c.pkg_byte(8, 0) == PkgAction::Data(1));
    assert!(c.pkg_byte(9, 0) == PkgAction::LastData(2));
    assert_eq!(c.finish_loader(LoaderRet::Success), 0);
    assert!(!c.is_loader_busy());
}

#[test]
fn loader_without_room() {
    let mut c = Control::default();
    c.start_pkg();
    c.pkg_byte(1, 0);
    c.pkg_byte(0, 0);
    c.pkg_byte(0, 0);
    assert!(c.pkg_byte(0, 0) == PkgAction::Report(3));
    assert!(c.get_loader_error() == LoaderRet::NotEnoughSpace);
    assert!(c.is_loader_busy());
    c.abort_loader();
    assert!(c.get_loader_error() == LoaderRet::Aborted);
}

#[test]
fn send_result_line() {
    assert_eq!(Control::send_result("pkg", 1), b"pkg1\r\n".to_vec());
    assert_eq!(Control::send_result("", 0), b"0\r\n".to_vec());
}

#[test]
fn dom_commands() {
    let mut dom = DOM::new();
    let media = Media::default();
    assert_eq!(dom.process_line("xml=<N><N></N></N>", &media), Some(b"0\r\n".to_vec()));
    assert_eq!(dom.nodes[0].first_child, 1);
    assert_eq!(dom.process_line("$1.width=12", &media), Some(b"$0\r\n".to_vec()));
    assert_eq!(dom.nodes[1].plot.size.width, 12);
    assert_eq!(dom.process_line("$1.bogus=1", &media), Some(b"$5\r\n".to_vec()));
    assert_eq!(dom.process_line("$99.width=1", &media), Some(b"$6\r\n".to_vec()));
    assert_eq!(dom.process_line("$nothing", &media), Some(b"$3\r\n".to_vec()));
    assert_eq!(dom.process_line("page=3", &media), Some(b"4\r\n".to_vec()));
    assert_eq!(dom.process_line("other", &media), None);
}

#[test]
fn dom_from_xml_errors() {
    let mut dom = DOM::new();
    assert!(dom.from_xml("<N width=abc></N>") == Ret::InvalidAttributeValue);
    assert!(dom.from_xml("<N><!x></N>") == Ret::InvalidXML);
    assert!(dom.from_xml("<N padding=\"1 2\">hi</N>") == Ret::Success);
    assert_eq!(dom.paddings[dom.nodes[0].plot.padding_idx as usize].e, 2);
    assert_eq!(dom.contents[dom.nodes[0].plot.content_idx as usize].raw, b"hi".to_vec());
}

#[test]
fn dom_binary_page_matches_xml() {
    let xml = "<N vertical padding=1><N width=7 align=center></N><N height=flex2>hi</N></N>";
    let bin = Media::xml_to_bin(xml);
    let mut a = DOM::new();
    let mut b = DOM::new();
    assert!(a.from(&bin) == Ret::Success);
    assert!(b.from_xml(xml) == Ret::Success);
    assert_eq!(a.nodes[0].flags, b.nodes[0].flags);
    assert_eq!(a.nodes[0].first_child, b.nodes[0].first_child);
    for i in 1..3 {
        assert_eq!(a.nodes[i].first_child, b.nodes[i].first_child);
        assert_eq!(a.nodes[i].next_sibling, b.nodes[i].next_sibling);
        assert_eq!(a.nodes[i].flags, b.nodes[i].flags);
        assert_eq!(a.nodes[i].plot.size.width, b.nodes[i].plot.size.width);
        assert_eq!(a.nodes[i].plot.size.height, b.nodes[i].plot.size.height);
    }
}

#[test]
fn dom_to_xml_round_trip() {
    let mut dom = DOM::new();
    dom.from_xml("<N width=10 align=end><N height=3 border=solid></N></N>");
    let xml = String::from_utf8(dom.to_xml(None, false)).unwrap();
    assert_eq!(xml, "<body width=10 align=end><div height=3 border=solid></div></body>");
}

#[test]
fn dom_remove_unlinks() {
    let mut dom = DOM::new();
    dom.from_xml("<N><N></N><N></N><N></N></N>");
    assert_eq!(dom.nodes[1].next_sibling, 2);
    dom.remove(2);
    assert_eq!(dom.nodes[1].next_sibling, 3);
    assert_eq!(dom.nodes[2].next_sibling, 24);
}

#[test]
fn dom_bad_instruction_reported() {
    let mut dom = DOM::new();
    // open the root, an unknown instruction (0x0f), close.
    assert!(dom.from(&[0x20, 0x0f, 0x30]) == Ret::InvalidDOMInstruction);
    // closing without an open node is a bad format.
    assert!(dom.from(&[0x30]) == Ret::InvalidFormat);
    assert!(dom.from(&[]) == Ret::Success);
}

#[test]
fn dom_xml_and_inspect_commands() {
    let mut dom = DOM::new();
    let media = Media::default();
    dom.process_line("xml=<N width=5></N>", &media);
    let xml = String::from_utf8(dom.process_line("$xml", &media).unwrap()).unwrap();
    assert!(xml.starts_with("<body width=5>"));
    assert!(xml.ends_with("$0\r\n"));
    let csv = String::from_utf8(dom.process_line("$inspect", &media).unwrap()).unwrap();
    assert!(csv.starts_with("idx,first_child"));
    assert!(csv.contains("\r\n0,24,24,"));
    assert_eq!(dom.process_line("$clear", &media), Some(b"$0\r\n".to_vec()));
}
