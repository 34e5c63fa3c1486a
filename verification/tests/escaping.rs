use slidemark::ctype::{isspace, to_ascii_lower};
use slidemark::html_slide_format::HtmlSlideFormatter;
use slidemark::options::{comrak_opt, ComrakOptions};
use slidemark::slide::{Meta, SlideHtmlDom, SlideSectionHtmlDom};
use slidemark::tagfilter::{dangerous_url, name_at, tagfilter, tagfilter_block};
use slidemark::test_echo;
use slidemark::writer::WriteWithLast;

fn escaped(input: &[u8]) -> Vec<u8> {
    let options = ComrakOptions::default();
    let mut f = HtmlSlideFormatter::new(&options, WriteWithLast::new());
    f.escape(input);
    f.into_output().into_bytes()
}

fn href(input: &[u8]) -> Vec<u8> {
    let options = ComrakOptions::default();
    let mut f = HtmlSlideFormatter::new(&options, WriteWithLast::new());
    f.escape_href(input);
    f.into_output().into_bytes()
}

fn filtered(input: &[u8]) -> Vec<u8> {
    let mut out = WriteWithLast::new();
    tagfilter_block(input, &mut out);
    out.into_bytes()
}

#[test]
fn escape_replaces_the_four_bytes() {
    assert_eq!(escaped(b"a\"b&c<d>e"), b"a&quot;b&amp;c&lt;d&gt;e".to_vec());
    assert_eq!(escaped(b"<>"), b"&lt;&gt;".to_vec());
    assert_eq!(escaped(b""), b"".to_vec());
    assert_eq!(escaped(b"'\x00\xff\n"), b"'\x00\xff\n".to_vec());
    assert_eq!(escaped("世界&".as_bytes()), "世界&amp;".as_bytes().to_vec());
}

#[test]
fn escape_is_a_fixed_point_on_text_without_the_four_bytes() {
    for input in [&b"plain text"[..], b"", b"a'b;c#d", "tab\tand\u{e9}".as_bytes()] {
        assert_eq!(escaped(input), input.to_vec());
        assert_eq!(escaped(&escaped(input)), input.to_vec());
    }
    let mut no_specials = Vec::new();
    for b in 0..=255u8 {
        if b != b'"' && b != b'&' && b != b'<' && b != b'>' {
            no_specials.push(b);
        }
    }
    assert_eq!(escaped(&no_specials), no_specials);
    assert_eq!(escaped(&escaped(b"a<b")), b"a&amp;lt;b".to_vec());
}

#[test]
fn escape_href_formula() {
    assert_eq!(href(b"http://a.b/c?d=e&f='g h'"), b"http://a.b/c?d=e&amp;f=&#x27;g%20h&#x27;".to_vec());
    assert_eq!(href(b"-_.+!*(),%#@?=;:/,+$~"), b"-_.+!*(),%#@?=;:/,+$~".to_vec());
    assert_eq!(
        href(b"abcxyzABCXYZ0123456789"),
        b"abcxyzABCXYZ0123456789".to_vec()
    );
    assert_eq!(href(b"\x00\x0a\x7f\xab\xff"), b"%00%0A%7F%AB%FF".to_vec());
    assert_eq!(href(b"\"<>[]^`{|}\\"), b"%22%3C%3E%5B%5D%5E%60%7B%7C%7D%5C".to_vec());
    assert_eq!(href("ü".as_bytes()), b"%C3%BC".to_vec());
    assert_eq!(href(b""), b"".to_vec());
}

#[test]
fn escape_href_covers_every_byte() {
    let safe = b"-_.+!*(),%#@?=;:/,+$~abcdefghijklmnopqrstuvwxyzABCDEFGHIJKLMNOPQRSTUVWXYZ0123456789";
    for b in 0..=255u8 {
        let expected = if safe.contains(&b) {
            vec![b]
        } else if b == b'&' {
            b"&amp;".to_vec()
        } else if b == b'\'' {
            b"&#x27;".to_vec()
        } else {
            format!("%{:02X}", b).into_bytes()
        };
        assert_eq!(href(&[b]), expected);
    }
}

#[test]
fn cr_writes_at_most_one_newline() {
    let options = ComrakOptions::default();
    let mut f = HtmlSlideFormatter::new(&options, WriteWithLast::new());
    f.cr();
    f.cr();
    f.escape(b"x");
    f.cr();
    f.cr();
    f.escape(b"y\n");
    f.cr();
    assert_eq!(f.into_output().into_bytes(), b"x\ny\n".to_vec());
}

#[test]
fn footnote_backref_is_written_once_per_definition() {
    let options = ComrakOptions::default();
    let mut f = HtmlSlideFormatter::new(&options, WriteWithLast::new());
    assert!(!f.put_footnote_backref());
    let def = slidemark::nodes::AstNode::new(slidemark::nodes::NodeValue::FootnoteDefinition(Vec::new()));
    f.format_node_v2(&def, slidemark::nodes::Context::root(), true);
    assert!(f.put_footnote_backref());
    assert!(!f.put_footnote_backref());
    assert_eq!(
        String::from_utf8(f.into_output().into_bytes()).unwrap(),
        "<section class=\"footnotes\">\n<ol>\n<li id=\"fn1\">\n<a href=\"#fnref1\" class=\"footnote-backref\">↩</a>"
    );
}

#[test]
fn tagfilter_detects_script() {
    assert!(tagfilter(b"<script>"));
    assert!(tagfilter(b"<SCRIPT "));
    assert!(!tagfilter(b"<scriptx>"));
}

#[test]
fn tagfilter_names_and_boundaries() {
    for name in ["title", "textarea", "style", "xmp", "iframe", "noembed", "noframes", "script", "plaintext"] {
        assert!(tagfilter(format!("<{}>", name).as_bytes()), "{}", name);
        assert!(tagfilter(format!("</{}>", name).as_bytes()), "{}", name);
        assert!(tagfilter(format!("<{}/>", name.to_uppercase()).as_bytes()), "{}", name);
        assert!(tagfilter(format!("<{}\tx", name).as_bytes()), "{}", name);
        assert!(tagfilter(format!("<{}\n", name).as_bytes()), "{}", name);
        assert!(!tagfilter(format!("<{}", name).as_bytes()), "{}", name);
        assert!(!tagfilter(format!("<{}/", name).as_bytes()), "{}", name);
        assert!(!tagfilter(format!("<{}/x", name).as_bytes()), "{}", name);
        assert!(!tagfilter(format!("<{}-", name).as_bytes()), "{}", name);
        assert!(!tagfilter(format!("{}>", name).as_bytes()), "{}", name);
        assert!(!tagfilter(format!("< {}>", name).as_bytes()), "{}", name);
        assert!(!tagfilter(format!("<//{}>", name).as_bytes()), "{}", name);
    }
    assert!(tagfilter(b"<sCrIpT>"));
    assert!(!tagfilter(b"<b>"));
    assert!(!tagfilter(b"<a"));
    assert!(!tagfilter(b""));
    assert!(!tagfilter(b"</"));
    assert!(!tagfilter(b"<tit"));
    assert!(!tagfilter("<\u{212a}mp>".as_bytes()));
}

#[test]
fn tagfilter_block_escapes_only_the_bracket() {
    assert_eq!(filtered(b"<p><script>alert(1)</script></p>"), b"<p>&lt;script>alert(1)&lt;/script></p>".to_vec());
    assert_eq!(filtered(b"no tags"), b"no tags".to_vec());
    assert_eq!(filtered(b""), b"".to_vec());
    assert_eq!(filtered(b"<<style >"), b"<&lt;style >".to_vec());
    assert_eq!(filtered(b"a<xmp"), b"a<xmp".to_vec());
    assert_eq!(filtered(b"<TITLE/>x<"), b"&lt;TITLE/>x<".to_vec());
}

#[test]
fn dangerous_urls() {
    assert!(dangerous_url(b"javascript:alert(1)"));
    assert!(dangerous_url(b"JaVaScRiPt:x"));
    assert!(dangerous_url(b"vbscript:x"));
    assert!(dangerous_url(b"file:///etc/passwd"));
    assert!(dangerous_url(b"data:text/html,x"));
    assert!(dangerous_url(b"data:"));
    assert!(dangerous_url(b"DATA:image/svg+xml"));
    assert!(!dangerous_url(b"data:image/png;base64,AAAA"));
    assert!(!dangerous_url(b"data:image/gif;"));
    assert!(!dangerous_url(b"data:image/jpeg"));
    assert!(!dangerous_url(b"Data:Image/WebP"));
    assert!(!dangerous_url(b"http://example.com/javascript:"));
    assert!(!dangerous_url(b" javascript:"));
    assert!(!dangerous_url(b"javascript"));
    assert!(!dangerous_url(b""));
}

#[test]
fn name_at_folds_ascii_case_only() {
    assert!(name_at(b"xxABC", 2, "abc"));
    assert!(name_at(b"abc", 0, ""));
    assert!(name_at(b"abc", 3, ""));
    assert!(!name_at(b"abc", 4, ""));
    assert!(!name_at(b"abc", 1, "abc"));
    assert!(!name_at(b"abc", usize::MAX, "a"));
    assert!(!name_at(b"ABC", 0, "ABC"));
}

#[test]
fn byte_classes() {
    for b in 0..=255u8 {
        assert_eq!(isspace(b), matches!(b, 9 | 10 | 11 | 12 | 13 | 32));
        assert_eq!(to_ascii_lower(b), b.to_ascii_lowercase());
    }
}

#[test]
fn writer_remembers_the_last_byte() {
    let mut w = WriteWithLast::new();
    assert!(w.last_was_lf());
    assert_eq!(w.write(b""), 0);
    assert!(w.last_was_lf());
    assert_eq!(w.write(b"ab"), 2);
    assert!(!w.last_was_lf());
    w.write_str("c\n");
    assert!(w.last_was_lf());
    assert_eq!(w.write(b""), 0);
    assert!(w.last_was_lf());
    w.write_byte(b'd');
    assert!(!w.last_was_lf());
    w.write_byte(b'\n');
    assert!(w.last_was_lf());
    assert_eq!(w.as_bytes(), &b"abc\nd\n".to_vec());
    assert_eq!(w.into_bytes(), b"abc\nd\n".to_vec());
}

#[test]
fn meta_is_a_mapping() {
    let mut meta = Meta::new();
    assert_eq!(meta.get(&"a".to_string()), None);
    meta.insert("a".to_string(), "1".to_string());
    meta.insert("b".to_string(), "2".to_string());
    meta.insert("a".to_string(), "3".to_string());
    assert_eq!(meta.get(&"a".to_string()), Some(&"3".to_string()));
    assert_eq!(meta.get(&"b".to_string()), Some(&"2".to_string()));
    assert_eq!(meta.get(&"c".to_string()), None);
    assert_eq!(
        meta.entries(),
        &vec![("a".to_string(), "3".to_string()), ("b".to_string(), "2".to_string())]
    );
}

#[test]
fn new_slide_documents_are_empty() {
    let dom = SlideHtmlDom::new();
    assert_eq!(dom.front.content, "");
    assert!(dom.front.meta.entries().is_empty());
    assert!(dom.content.is_empty());
    assert_eq!(dom.pending_level, 0);
    assert_eq!(dom.pending_content, "");
    assert!(dom.pending_meta.entries().is_empty());
    let section = SlideSectionHtmlDom::new();
    assert_eq!(section.content, "");
    assert!(section.meta.entries().is_empty());
}

#[test]
fn flush_follows_the_number_of_headings_seen() {
    let options = ComrakOptions::default();
    let mut f = HtmlSlideFormatter::new(&options, WriteWithLast::new());
    let mut dom = SlideHtmlDom::new();
    dom.pending_content = "zero".to_string();
    dom.pending_meta.insert("k".to_string(), "0".to_string());
    f.setupSlideDomContent(&mut dom);
    assert_eq!(dom.front.content, "");
    assert!(dom.content.is_empty());
    assert_eq!(dom.pending_content, "");
    assert!(dom.pending_meta.entries().is_empty());

    dom.pending_level = 1;
    dom.pending_content = "one".to_string();
    dom.pending_meta.insert("k".to_string(), "1".to_string());
    f.setupSlideDomContent(&mut dom);
    assert_eq!(dom.front.content, "one");
    assert_eq!(dom.front.meta.get(&"k".to_string()), Some(&"1".to_string()));
    assert!(dom.content.is_empty());
    assert_eq!(dom.pending_content, "");
    assert!(dom.pending_meta.entries().is_empty());

    dom.pending_level = 5;
    dom.pending_content = "five".to_string();
    f.setupSlideDomContent(&mut dom);
    assert_eq!(dom.front.content, "one");
    assert_eq!(dom.content.len(), 1);
    assert_eq!(dom.content[0].content, "five");
    assert!(dom.content[0].meta.entries().is_empty());
    assert_eq!(dom.pending_level, 5);
}

#[test]
fn slide_options() {
    let opts = comrak_opt();
    assert!(opts.extension.strikethrough);
    assert!(opts.extension.tagfilter);
    assert!(opts.extension.table);
    assert!(opts.extension.autolink);
    assert!(opts.extension.tasklist);
    assert!(opts.extension.superscript);
    assert!(opts.extension.footnotes);
    assert!(opts.extension.description_lists);
    assert_eq!(opts.extension.header_ids, None);
    assert!(opts.render.hardbreaks);
    assert!(!opts.render.github_pre_lang);
    assert!(!opts.render.unsafe_);
    assert!(!opts.render.escape);
    let plain = ComrakOptions::default();
    assert!(!plain.extension.tagfilter);
    assert!(!plain.render.hardbreaks);
    assert_eq!(plain.extension.header_ids, None);
}

#[test]
fn echo_adds_one() {
    assert_eq!(test_echo(41), 42);
    assert_eq!(test_echo(-1), 0);
    assert_eq!(test_echo(i32::MIN), i32::MIN + 1);
    assert_eq!(test_echo(i32::MAX - 1), i32::MAX);
}

fn entries(literal: &[u8]) -> Vec<(Vec<u8>, Vec<u8>)> {
    slidemark::metadata::read_metadatas(literal).into_iter().map(|kv| (kv.key, kv.value)).collect()
}

fn entry(key: &str, value: &str) -> (Vec<u8>, Vec<u8>) {
    (key.as_bytes().to_vec(), value.as_bytes().to_vec())
}

#[test]
fn metadata_lines_are_split_at_the_first_colon() {
    assert_eq!(entries(b"a:b\nc: d\n"), vec![entry("a", "b"), entry("c", " d")]);
    assert_eq!(entries(b"a:b:c"), vec![entry("a", "b:c")]);
    assert_eq!(entries(b"key:"), vec![entry("key", "")]);
    assert_eq!(entries(b""), Vec::new());
    assert_eq!(entries(b"\n"), Vec::new());
}

#[test]
fn metadata_lines_without_colon_are_passed_over() {
    assert_eq!(entries(b"no colon\nk:v"), vec![entry("k", "v")]);
    assert_eq!(entries(b"k:v\n\n\nz:w\nend"), vec![entry("k", "v"), entry("z", "w")]);
}

#[test]
fn metadata_reading_stops_at_an_empty_key() {
    assert_eq!(entries(b"a:b\n:stop\nx:y"), vec![entry("a", "b")]);
    assert_eq!(entries(b":\na:b"), Vec::new());
}

#[test]
fn metadata_lines_end_at_line_feed_or_carriage_return_line_feed() {
    assert_eq!(entries(b"a:\r\nb:c\r"), vec![entry("a", ""), entry("b", "c\r")]);
    assert_eq!(entries(b"a:b\r\r\n"), vec![entry("a", "b\r")]);
    assert_eq!(entries(b"\r\nk:v\r\n"), vec![entry("k", "v")]);
    assert_eq!(entries(b"\r:x\r\n"), vec![entry("\r", "x")]);
}

#[test]
fn metadata_block_reads_its_text() {
    let block = slidemark::nodes::NodeSlideMetaDataBlock::new(b"theme:dark\nsize:2".to_vec());
    assert_eq!(block.literal, b"theme:dark\nsize:2".to_vec());
    assert_eq!(block.metadatas.len(), 2);
    assert_eq!(block.metadatas[0].key, b"theme".to_vec());
    assert_eq!(block.metadatas[0].value, b"dark".to_vec());
    assert_eq!(block.metadatas[1].key, b"size".to_vec());
    assert_eq!(block.metadatas[1].value, b"2".to_vec());
}
