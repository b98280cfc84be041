use markie::export::{output_format, OutputFormat};
use markie::renderer::{build_data_url, mime_from_extension, mime_from_url, next_list_marker, parse_data_url, ListCounter};
use markie::xml::{escape_xml, sanitize_xml_text};

#[test]
fn ordered_lists_count_and_bullets_do_not() {
    let mut stack = vec![ListCounter { ordered: false, next_index: 1 }, ListCounter { ordered: true, next_index: 9 }];
    assert_eq!(next_list_marker(&mut stack), "9.");
    assert_eq!(next_list_marker(&mut stack), "10.");
    assert_eq!(stack[1].next_index, 11);
    stack.pop();
    assert_eq!(next_list_marker(&mut stack), "•");
    let mut empty: Vec<ListCounter> = Vec::new();
    assert_eq!(next_list_marker(&mut empty), "•");
}

#[test]
fn mime_types() {
    assert_eq!(mime_from_extension("PNG").as_deref(), Some("image/png"));
    assert_eq!(mime_from_extension("jpeg").as_deref(), Some("image/jpeg"));
    assert_eq!(mime_from_extension("gif"), None);
    assert_eq!(mime_from_url("https://x.org/a/b.Svg?x=1#top").as_deref(), Some("image/svg+xml"));
    assert_eq!(mime_from_url("https://x.org/pic.jpg").as_deref(), Some("image/jpeg"));
    assert_eq!(mime_from_url("https://x.org/pic"), None);
    assert_eq!(mime_from_url("png").as_deref(), Some("image/png"));
}

#[test]
fn data_urls() {
    let (mime, bytes) = parse_data_url("data:image/png;base64,aGVsbG8=").unwrap().unwrap();
    assert_eq!(mime, "image/png");
    assert_eq!(bytes, b"hello".to_vec());
    let (mime, _) = parse_data_url("data:image/svg+xml;charset=utf-8;BASE64,aGk=").unwrap().unwrap();
    assert_eq!(mime, "image/svg+xml");
    assert!(parse_data_url("data:image/png,hello").unwrap().is_none());
    assert!(parse_data_url("data:image/png;base64,").unwrap().is_none());
    assert!(parse_data_url("data:;base64,aGk=").unwrap().is_none());
    let err = parse_data_url("data:image/png;base64,!!!").unwrap_err();
    assert!(err.starts_with("Failed to decode data URL: "), "{}", err);
    let err = parse_data_url("data:image/png;base64,!!!!").unwrap_err();
    assert_eq!(err, "Failed to decode data URL: Invalid symbol 33, offset 0.");
}

#[test]
fn data_url_round_trip() {
    let url = build_data_url("image/png", &[1, 2, 3, 250]);
    assert_eq!(url, "data:image/png;base64,AQID+g==");
    let (mime, bytes) = parse_data_url(&url).unwrap().unwrap();
    assert_eq!(mime, "image/png");
    assert_eq!(bytes, vec![1, 2, 3, 250]);
}

#[test]
fn output_formats() {
    assert_eq!(output_format(Some("PNG")), Ok(OutputFormat::Png));
    assert_eq!(output_format(Some("svg")), Ok(OutputFormat::Svg));
    assert_eq!(output_format(Some("pdf")), Ok(OutputFormat::Pdf));
    assert_eq!(
        output_format(Some("GIF")),
        Err("Unsupported output format: .gif (use .svg, .png or .pdf)".to_string())
    );
    assert_eq!(output_format(None), Err("Output file has no extension".to_string()));
}

#[test]
fn xml_escaping_and_cleaning() {
    assert_eq!(escape_xml("<a href=\"x\">'&'</a>"), "&lt;a href=&quot;x&quot;&gt;&apos;&amp;&apos;&lt;/a&gt;");
    assert_eq!(markie::mermaid::escape_xml("a & 'b' <c>"), "a &amp; 'b' &lt;c&gt;");
    assert_eq!(sanitize_xml_text("Intro\n\n\u{0007}## 1) Summary\n"), "Intro\n\n## 1) Summary\n");
    assert_eq!(sanitize_xml_text("a\tb\rc\u{0}d\u{fffe}e\u{ffff}f"), "a\tb\rcdef");
}

use markie::paths::{path_stays_within, PathPart};

fn n(s: &str) -> PathPart {
    PathPart::Normal(s.to_string())
}

#[test]
fn image_paths_must_stay_in_the_document_directory() {
    let base = vec![n("docs"), n("src")];
    let inside = vec![n("docs"), n("src"), PathPart::CurDir, n("img"), n("a.png")];
    assert!(path_stays_within(&inside, &base));
    let escape = vec![n("docs"), n("src"), PathPart::ParentDir, n("Cargo.toml")];
    assert!(!path_stays_within(&escape, &base));
    let back_in = vec![n("docs"), n("src"), n("img"), PathPart::ParentDir, n("a.png")];
    assert!(path_stays_within(&back_in, &base));
    let rooted = vec![n("docs"), n("src"), PathPart::RootDir, n("etc"), n("passwd")];
    assert!(!path_stays_within(&rooted, &base));
    // `..` at the start of a relative path has nothing to drop, as with `PathBuf::pop`.
    let too_far = vec![n("x"), PathPart::ParentDir, PathPart::ParentDir, n("x")];
    assert!(path_stays_within(&too_far, &vec![n("x")]));
    let sideways = vec![n("x"), PathPart::ParentDir, n("y")];
    assert!(!path_stays_within(&sideways, &vec![n("x")]));
}

use markie::export::choose_font_fallbacks;

#[test]
fn font_fallbacks_follow_family_names() {
    let fams: Vec<String> = ["Arial", "DejaVu Serif", "Noto Sans", "Fira Code"].iter().map(|s| s.to_string()).collect();
    let f = choose_font_fallbacks(&fams);
    assert_eq!(f.sans.as_deref(), Some("Noto Sans"));
    assert_eq!(f.serif.as_deref(), Some("DejaVu Serif"));
    assert_eq!(f.mono.as_deref(), Some("Fira Code"));

    let fams: Vec<String> = ["Arial", "Liberation Sans"].iter().map(|s| s.to_string()).collect();
    let f = choose_font_fallbacks(&fams);
    assert_eq!(f.serif.as_deref(), Some("Arial"));
    assert_eq!(f.mono.as_deref(), Some("Liberation Sans"));

    let f = choose_font_fallbacks(&[]);
    assert_eq!(f, markie::export::FontFallbacks { sans: None, serif: None, mono: None });
}

use markie::markdown::markdown_event_lines;

#[test]
fn markdown_events_know_their_lines() {
    let text = "# Title\n\nSome *text*\nmore\n\n- item";
    let (events, lines) = markdown_event_lines(text);
    assert_eq!(events.len(), lines.len());
    assert!(!events.is_empty());
    // The heading starts on line 1 and the list on line 6.
    assert_eq!(lines[0], 1);
    assert_eq!(*lines.last().unwrap(), 6);
    // The paragraph's text on line 4 belongs to a paragraph starting on line 3.
    assert!(lines.contains(&3) && lines.contains(&4));
    match &events[0].event {
        pulldown_cmark::Event::Start(pulldown_cmark::Tag::Heading { .. }) => {},
        other => panic!("expected a heading, got {:?}", other),
    }
    // Each event carries its own line: the list starts on line 6, the
    // emphasised word on line 3.
    let list = events.iter().position(|e| matches!(e.event, pulldown_cmark::Event::Start(pulldown_cmark::Tag::List(_)))).unwrap();
    assert_eq!(lines[list], 6);
    let em = events.iter().position(|e| matches!(e.event, pulldown_cmark::Event::Start(pulldown_cmark::Tag::Emphasis))).unwrap();
    assert_eq!(lines[em], 3);
}

#[test]
fn code_blocks_are_highlighted_line_by_line() {
    let h = markie::highlight::load_highlighting();
    let lines = markie::highlight::code_block_spans(&h, "fn main() {}\nlet x = 1;", Some("rust"), false).unwrap();
    assert_eq!(lines.len(), 2);
    let first: String = lines[0].iter().map(|s| s.text.as_str()).collect();
    let second: String = lines[1].iter().map(|s| s.text.as_str()).collect();
    assert_eq!(first, "fn main() {}");
    assert_eq!(second, "let x = 1;");
    assert!(lines[0].len() > 1, "rust keywords are styled apart from the rest");
    let plain = markie::highlight::code_block_spans(&h, "a\n\nb", None, true).unwrap();
    assert_eq!(plain.len(), 3);
    let empty = markie::highlight::code_block_spans(&h, "", Some("rust"), true).unwrap();
    assert!(empty.is_empty());
}

#[test]
fn raster_images_report_their_size() {
    let mut png = vec![0x89, b'P', b'N', b'G', 0x0D, 0x0A, 0x1A, 0x0A, 0, 0, 0, 13];
    png.extend_from_slice(b"IHDR");
    png.extend_from_slice(&123u32.to_be_bytes());
    png.extend_from_slice(&321u32.to_be_bytes());
    png.extend_from_slice(&[8, 6, 0, 0, 0]);
    assert_eq!(markie::renderer::raster_image_size(&png), Ok((123, 321)));
    let err = markie::renderer::raster_image_size(b"this is not an image at all").unwrap_err();
    assert!(err.starts_with("Failed to read image size: "), "{}", err);
}
