use xml_log_scan::{
    choose_boundary, find_lt, has_gt_from, read_fragment, render, same_bytes, scan_step,
    sniff_boundary, tail_from, BoundaryChoice, EntryPattern, Pull, ScanStatus, TokenKind, XmlExtractor,
    XmlExtractorError, XmlExtractorIter,
};

/// Reads the probe the way a stream reader does, then feeds the rest of the
/// input in chunks of `chunk` bytes, collecting every fragment.
fn extract_with(input: &[u8], chunk: usize, pattern: Option<&str>) -> Vec<String> {
    let first = input.len().min(chunk.max(20));
    let mut fed = first;
    let mut it: XmlExtractorIter = XmlExtractor::new(pattern)
        .ok()
        .unwrap()
        .into_iter(input[..first].to_vec(), first == input.len());
    let mut out = Vec::new();
    loop {
        match it.next_step() {
            Pull::Fragment(s) => out.push(s),
            Pull::NeedInput => {
                if fed == input.len() {
                    it.end_input();
                } else {
                    let end = (fed + chunk).min(input.len());
                    it.push(&input[fed..end]);
                    fed = end;
                }
            }
            Pull::Finished => return out,
        }
    }
}

fn extract(input: &[u8]) -> Vec<String> {
    extract_with(input, 1024, None)
}

const EXAMPLE_LOG: &[u8] =
    b"<hello>\n  <world/>\n</hello>\nsome text\n<simple qqq=\"aaa\"/>\nmore text <another></another>\n";

#[test]
fn test_xml_extractor_iter() {
    let got = extract(EXAMPLE_LOG);
    let mut iter = got.into_iter();
    assert_eq!(iter.next(), Some("<hello>\n  <world/>\n</hello>".to_string()));
    assert_eq!(iter.next(), Some(r#"<simple qqq="aaa"/>"#.to_string()));
    assert_eq!(iter.next(), Some("<another></another>".to_string()));
    assert_eq!(iter.next(), None);
}

#[test]
fn test_xml_extractor_iter2() {
    let got = extract(b"qqq <hello/> <world/>\nqqq <next><child/></next>");
    let mut iter = got.into_iter();
    assert_eq!(iter.next(), Some("<hello/>".to_string()));
    assert_eq!(iter.next(), Some("<world/>".to_string()));
    assert_eq!(iter.next(), Some("<next><child/></next>".to_string()));
    assert_eq!(iter.next(), None);
}

#[test]
fn single_element_alone() {
    assert_eq!(
        extract(b"<root a=\"1\"><child>text</child></root>"),
        vec!["<root a=\"1\"><child>text</child></root>".to_string()]
    );
}

#[test]
fn nested_same_name() {
    assert_eq!(
        extract(b"x <a><a>1</a><b/></a> y"),
        vec!["<a><a>1</a><b/></a>".to_string()]
    );
}

#[test]
fn every_chunk_size_gives_same_fragments() {
    let inputs: [&[u8]; 3] = [
        EXAMPLE_LOG,
        b"qqq <hello/> <world/>\nqqq <next><child/></next>",
        b"2024-01-02 03:04:05 start <a x=\"long attribute value\">\nbody\n</a>\n2024-01-02 03:04:06 <b/>",
    ];
    for input in inputs {
        let whole = extract(input);
        for chunk in 1..=input.len() {
            assert_eq!(extract_with(input, chunk, None), whole, "chunk {}", chunk);
        }
    }
}

#[test]
fn unclosed_element_is_dropped() {
    assert_eq!(extract(b"text <a><b/> and no end"), vec!["<b/>".to_string()]);
    assert_eq!(extract(b"<open"), Vec::<String>::new());
    assert_eq!(extract(b""), Vec::<String>::new());
}

#[test]
fn boundary_hit_abandons_attempt() {
    // the first byte is not whitespace, so a new line that starts with a
    // non-whitespace byte marks a new entry
    assert_eq!(
        extract(b"x <a>\nnext entry <b/>\n</a>"),
        vec!["<b/>".to_string()]
    );
}

#[test]
fn timestamp_boundary_keeps_plain_lines() {
    assert_eq!(
        extract(b"2024-01-02 03:04:05 <a>\nfoo\n</a>"),
        vec!["<a>\nfoo\n</a>".to_string()]
    );
    assert_eq!(
        extract(b"2024-01-02 03:04:05 <a>\n2024-01-02 03:04:06 <b/></a>"),
        vec!["<b/>".to_string()]
    );
}

#[test]
fn whitespace_start_disables_boundary() {
    assert_eq!(
        extract(b" x <a>\nfoo\n</a>"),
        vec!["<a>\nfoo\n</a>".to_string()]
    );
}

#[test]
fn explicit_pattern_replaces_sniffing() {
    assert_eq!(
        extract_with(b"x <a>\nfoo\n</a> <c>STOP</c> <d/>", 1024, Some("STOP")),
        vec!["<a>\nfoo\n</a>".to_string(), "<d/>".to_string()]
    );
}

#[test]
fn round_trip_is_stable() {
    for f in extract(EXAMPLE_LOG) {
        assert_eq!(extract(f.as_bytes()), vec![f.clone()]);
    }
}

#[test]
fn invalid_utf8_is_replaced() {
    assert_eq!(extract(b" <a>\xff</a>"), vec!["<a>\u{FFFD}</a>".to_string()]);
}

#[test]
fn session_ends_after_finish() {
    let mut it = XmlExtractor::new(None).ok().unwrap().into_iter(b" <a/> ".to_vec(), true);
    assert!(matches!(it.next_step(), Pull::Fragment(s) if s == "<a/>"));
    assert!(matches!(it.next_step(), Pull::Finished));
    assert!(matches!(it.next_step(), Pull::Finished));
}

#[test]
fn waits_for_more_input() {
    let mut it = XmlExtractor::new(None).ok().unwrap().into_iter(b" <a><b".to_vec(), false);
    assert!(matches!(it.next_step(), Pull::NeedInput));
    it.push(b"/></a>");
    assert!(matches!(it.next_step(), Pull::NeedInput));
    it.push(b" ");
    assert!(matches!(it.next_step(), Pull::Fragment(s) if s == "<a><b/></a>"));
    assert!(matches!(it.next_step(), Pull::NeedInput));
    it.end_input();
    assert!(matches!(it.next_step(), Pull::Finished));
}

#[test]
fn scanner_transitions() {
    let s = scan_step(ScanStatus::Expect, TokenKind::Start, false, false);
    assert_eq!(s, ScanStatus::Inside { depth: 0 });
    assert_eq!(scan_step(ScanStatus::Expect, TokenKind::Empty, false, false), ScanStatus::Accepted);
    assert_eq!(scan_step(ScanStatus::Expect, TokenKind::Text, false, false), ScanStatus::Rejected);
    assert_eq!(scan_step(s, TokenKind::Start, true, false), ScanStatus::Inside { depth: 1 });
    assert_eq!(scan_step(s, TokenKind::Start, false, false), s);
    assert_eq!(scan_step(s, TokenKind::End, true, false), ScanStatus::Accepted);
    assert_eq!(
        scan_step(ScanStatus::Inside { depth: 2 }, TokenKind::End, true, false),
        ScanStatus::Inside { depth: 1 }
    );
    assert_eq!(scan_step(s, TokenKind::Text, false, true), ScanStatus::Rejected);
    assert_eq!(scan_step(s, TokenKind::Text, false, false), s);
    assert_eq!(scan_step(s, TokenKind::Truncated, false, false), ScanStatus::Rejected);
    assert_eq!(scan_step(s, TokenKind::Malformed, false, false), ScanStatus::Rejected);
    assert_eq!(scan_step(s, TokenKind::Other, false, false), s);
    assert_eq!(scan_step(ScanStatus::Accepted, TokenKind::Start, false, false), ScanStatus::Accepted);
}

#[test]
fn boundary_choice() {
    assert_eq!(choose_boundary(20, true, true), BoundaryChoice::Timestamp);
    assert_eq!(choose_boundary(19, true, true), BoundaryChoice::NonWhitespace);
    assert_eq!(choose_boundary(19, true, false), BoundaryChoice::Disabled);
    assert_eq!(choose_boundary(30, false, true), BoundaryChoice::NonWhitespace);
    assert_eq!(choose_boundary(30, false, false), BoundaryChoice::Disabled);
}

#[test]
fn byte_helpers() {
    assert_eq!(find_lt(b"ab<c<", 0), Some(2));
    assert_eq!(find_lt(b"ab<c<", 3), Some(4));
    assert_eq!(find_lt(b"ab<c<", 5), None);
    assert_eq!(find_lt(b"abc", 9), None);
    assert_eq!(tail_from(b"abcdef", 2), b"cdef".to_vec());
    assert_eq!(tail_from(b"abc", 3), Vec::<u8>::new());
    assert!(same_bytes(b"abc", b"abc"));
    assert!(!same_bytes(b"abc", b"abd"));
    assert!(!same_bytes(b"ab", b"abc"));
}

#[test]
fn fragment_attempts() {
    let a = read_fragment(b"<a><b/></a>rest", &None);
    assert_eq!(a.status, ScanStatus::Accepted);
    assert!(!a.cut_short && !a.malformed);
    assert_eq!(a.consumed, 11);
    assert_eq!(a.count, 3);
    let text = render(&a.tokens, a.count);
    assert_eq!(text, b"<a><b/></a>".to_vec());

    let b = read_fragment(b"<a><b>", &None);
    assert_eq!(b.status, ScanStatus::Rejected);
    assert!(b.cut_short);

    let c = read_fragment(b"<a></b> x", &None);
    assert_eq!(c.status, ScanStatus::Rejected);
    assert!(c.malformed && !c.cut_short);

    let d = read_fragment(b"<!-- c --><a/>", &None);
    assert_eq!(d.status, ScanStatus::Rejected);
    assert!(!d.cut_short && !d.malformed);

    let re = EntryPattern::compile("\\n\\S").ok();
    let e = read_fragment(b"<a>\nnext</a>", &re);
    assert_eq!(e.status, ScanStatus::Rejected);
    assert!(!e.cut_short && !e.malformed);
}

#[test]
fn sniffed_boundaries() {
    let (c, re) = sniff_boundary(b"2024-01-02 03:04:05 entry").ok().unwrap();
    assert_eq!(c, BoundaryChoice::Timestamp);
    assert!(re.unwrap().is_match(b"x\n2024-01-02 03:04:06"));
    let (c, re) = sniff_boundary(b"2024-01-02 03:04").ok().unwrap();
    assert_eq!(c, BoundaryChoice::NonWhitespace);
    assert!(re.unwrap().is_match(b"x\ny"));
    let (c, re) = sniff_boundary(b"  indented").ok().unwrap();
    assert_eq!(c, BoundaryChoice::Disabled);
    assert!(re.is_none());
    let (c, _) = sniff_boundary(b"").ok().unwrap();
    assert_eq!(c, BoundaryChoice::Disabled);
}

#[test]
fn finds_closing_bracket() {
    assert!(has_gt_from(b"a>b", 0));
    assert!(has_gt_from(b"a>b", 1));
    assert!(!has_gt_from(b"a>b", 2));
    assert!(!has_gt_from(b"", 0));
}

#[test]
fn bad_pattern_is_refused() {
    assert!(matches!(XmlExtractor::new(Some("(")), Err(XmlExtractorError::Regex)));
    assert!(XmlExtractor::new(Some("\\nINFO")).is_ok());
}

#[test]
fn timestamp_line_abandons_element() {
    assert_eq!(
        extract(b"2024-01-01 12:00:00 <a>\n2024-01-01 12:00:01 <b/>\n"),
        vec!["<b/>".to_string()]
    );
    assert_eq!(extract(b"<open>never closed, still open at end"), Vec::<String>::new());
}
