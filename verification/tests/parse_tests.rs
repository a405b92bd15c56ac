use xml_infoset::parse::{parse, parse_with_statistics, ParseError, RawEvent};
use xml_infoset::{
    CommentParentInfoItem, DocChildInfoItem, ElementChildInfoItem, ElementParentInfoItem,
    EncodingScheme, InfoSet, InfoSetData, Span, Version,
};

fn root_of(infoset: &InfoSet) -> xml_infoset::ElementInfoItem {
    let doc = infoset.data.doc_info_item.expect("document recorded");
    doc.document_element(&infoset.data)
}

#[test]
fn single_self_closing_root() {
    let infoset = parse("<a/>").expect("well-formed");
    let root = root_of(&infoset);
    let elem = infoset.data.element(root).expect("root resolves");
    assert_eq!(elem.local_name.get(&infoset).unwrap(), "a");
    assert!(elem.prefix.is_none());
    assert!(elem.children.is_empty());
    assert!(elem.attributes.is_empty());
    assert!(matches!(elem.parent, ElementParentInfoItem::Doc(_)));
}

#[test]
fn element_then_comment_children_in_order() {
    let infoset = parse("<a><b/><!--c--></a>").expect("well-formed");
    let root = root_of(&infoset);
    let elem = infoset.data.element(root).expect("root resolves");
    assert_eq!(elem.local_name.get(&infoset).unwrap(), "a");
    assert_eq!(elem.children.len(), 2);
    match elem.children[0] {
        ElementChildInfoItem::Element(b) => {
            let bd = infoset.data.element(b).expect("child resolves");
            assert_eq!(bd.local_name.get(&infoset).unwrap(), "b");
            assert!(bd.children.is_empty());
            assert!(matches!(bd.parent, ElementParentInfoItem::Element(p) if p == root));
        }
        _ => panic!("first child should be the element"),
    }
    match elem.children[1] {
        ElementChildInfoItem::Comment(c) => {
            let cd = infoset.data.comment(c).expect("comment resolves");
            assert_eq!(cd.content.get(&infoset).unwrap(), "c");
            assert!(matches!(cd.parent, CommentParentInfoItem::Element(p) if p == root));
        }
        _ => panic!("second child should be the comment"),
    }
}

#[test]
fn mismatched_closing_name_is_unexpected_token() {
    assert!(matches!(parse("<a></b>"), Err(ParseError::UnexpectedToken)));
}

#[test]
fn unclosed_inner_element_fails_before_end_of_stream() {
    assert!(matches!(parse("<a><b></a>"), Err(ParseError::UnexpectedToken)));
}

#[test]
fn second_root_element_is_rejected() {
    // The external tokenizer itself refuses a second top-level element, so
    // through `parse` the lexical error surfaces verbatim.
    assert!(matches!(parse("<a/><b/>"), Err(ParseError::TokenError(_))));
}

#[test]
fn second_root_element_event_is_duplicate_root() {
    // At the event level the machine reports the duplicate itself.
    let input = "<a/><b/>";
    let events = vec![
        RawEvent::ElementStart {
            prefix: Span { start: 1, end: 1 },
            local: Span { start: 1, end: 2 },
        },
        RawEvent::ElementEndEmpty,
        RawEvent::ElementStart {
            prefix: Span { start: 5, end: 5 },
            local: Span { start: 5, end: 6 },
        },
        RawEvent::ElementEndEmpty,
    ];
    let mut data = InfoSetData::default();
    let r = xml_infoset::parse::parse_events(input, &events, None, &mut data);
    assert!(matches!(r, Err(ParseError::DuplicateRootElement)));
}

#[test]
fn second_default_namespace_is_duplicate() {
    assert!(matches!(
        parse(r#"<a xmlns="urn:x" xmlns="urn:y"/>"#),
        Err(ParseError::DuplicateNSAttribute)
    ));
}

#[test]
fn distinct_default_and_prefixed_namespaces_are_fine() {
    let infoset = parse(r#"<a xmlns="urn:x" xmlns:p="urn:y" q="v"/>"#).expect("well-formed");
    let root = root_of(&infoset);
    let elem = infoset.data.element(root).expect("root resolves");
    assert_eq!(elem.local_name.get(&infoset).unwrap(), "a");
}

#[test]
fn prefixed_element_names_must_match_exactly() {
    let infoset = parse("<p:a></p:a>").expect("well-formed");
    let root = root_of(&infoset);
    let elem = infoset.data.element(root).expect("root resolves");
    assert_eq!(elem.local_name.get(&infoset).unwrap(), "a");
    let prefix = elem.prefix.expect("prefixed");
    assert_eq!(prefix.get(&infoset).unwrap(), "p");
    assert!(matches!(parse("<p:a></q:a>"), Err(ParseError::UnexpectedToken)));
}

#[test]
fn nested_structure_mirrors_input_order() {
    let infoset = parse("<a><b><c/></b><d/></a>").expect("well-formed");
    let root = root_of(&infoset);
    let a = infoset.data.element(root).expect("root resolves");
    assert_eq!(a.children.len(), 2);
    let b = match a.children[0] {
        ElementChildInfoItem::Element(h) => h,
        _ => panic!("expected element child"),
    };
    let d = match a.children[1] {
        ElementChildInfoItem::Element(h) => h,
        _ => panic!("expected element child"),
    };
    let bd = infoset.data.element(b).unwrap();
    assert_eq!(bd.local_name.get(&infoset).unwrap(), "b");
    assert_eq!(bd.children.len(), 1);
    let dd = infoset.data.element(d).unwrap();
    assert_eq!(dd.local_name.get(&infoset).unwrap(), "d");
    assert!(dd.children.is_empty());
}

#[test]
fn processing_instruction_inside_element() {
    let infoset = parse("<a><?go now?></a>").expect("well-formed");
    let root = root_of(&infoset);
    let a = infoset.data.element(root).unwrap();
    assert_eq!(a.children.len(), 1);
    match a.children[0] {
        ElementChildInfoItem::PI(h) => {
            let pi = infoset.data.pi(h).unwrap();
            assert_eq!(pi.target.get(&infoset).unwrap(), "go");
            let content = pi.content.expect("content present");
            assert_eq!(content.get(&infoset).unwrap(), "now");
        }
        _ => panic!("expected a processing instruction child"),
    }
}

#[test]
fn declaration_fields_are_recorded() {
    let infoset =
        parse("<?xml version=\"1.0\" encoding=\"UTF-8\" standalone=\"yes\"?><a/>").unwrap();
    let doc = infoset.data.doc_info_item.unwrap();
    assert!(matches!(doc.version(&infoset.data), Version::Version1_0));
    assert!(matches!(
        doc.character_encoding_scheme(&infoset.data),
        Some(EncodingScheme::Utf8)
    ));
    assert_eq!(doc.standalone(&infoset.data), Some(true));
    assert!(doc.all_declarations_processed(&infoset.data));
    assert!(doc.children(&infoset.data).is_empty());
    assert!(doc.notations(&infoset.data).is_none());
    assert!(doc.unparsed_entities(&infoset.data).is_empty());
    assert!(doc.base_uri(&infoset.data).is_none());
}

#[test]
fn missing_declaration_defaults_to_lowest_version() {
    let infoset = parse("<a/>").unwrap();
    let doc = infoset.data.doc_info_item.unwrap();
    assert!(matches!(doc.version(&infoset.data), Version::Version1_0));
    assert!(doc.character_encoding_scheme(&infoset.data).is_none());
    assert_eq!(doc.standalone(&infoset.data), None);
}

#[test]
fn other_versions_and_encodings_are_carried_verbatim() {
    let infoset = parse("<?xml version=\"1.1\" encoding=\"latin1\"?><a/>").unwrap();
    let doc = infoset.data.doc_info_item.unwrap();
    assert!(matches!(doc.version(&infoset.data), Version::Version1_1));
    assert!(matches!(
        doc.character_encoding_scheme(&infoset.data),
        Some(EncodingScheme::Other(s)) if s == "latin1"
    ));
}

#[test]
fn statistics_report_no_nonstandard_references() {
    let (_infoset, stats) = parse_with_statistics("<a/>").unwrap();
    assert!(!stats.has_nonstandard_entity_reference);
}

#[test]
fn empty_input_is_unexpected_eof() {
    assert!(matches!(parse(""), Err(ParseError::UnexpectedEOF)));
}

#[test]
fn declaration_alone_is_unexpected_eof() {
    assert!(matches!(parse("<?xml version=\"1.0\"?>"), Err(ParseError::UnexpectedEOF)));
}

#[test]
fn truncated_tag_is_unexpected_eof() {
    // The tokenizer ends its stream quietly inside the attribute list, so
    // the machine reports the truncation.
    assert!(matches!(parse("<a"), Err(ParseError::UnexpectedEOF)));
}

#[test]
fn malformed_text_after_root_is_reported() {
    assert!(matches!(parse("<a/>junk<"), Err(ParseError::TokenError(_))));
}

#[test]
fn doctype_is_not_yet_supported() {
    assert!(matches!(parse("<!DOCTYPE a><a/>"), Err(ParseError::NotSupported)));
}

#[test]
fn character_data_content_is_not_accepted() {
    assert!(matches!(parse("<a>text</a>"), Err(ParseError::UnexpectedToken)));
}

#[test]
fn document_level_comments_are_skipped() {
    let infoset = parse("<!--before--><a/><!--after-->").expect("well-formed");
    let root = root_of(&infoset);
    let elem = infoset.data.element(root).unwrap();
    assert_eq!(elem.local_name.get(&infoset).unwrap(), "a");
}

#[test]
fn parse_events_builds_from_plain_events() {
    // The event stream of `<a/>`, written by hand.
    let input = "<a/>";
    let events = vec![
        RawEvent::ElementStart {
            prefix: Span { start: 1, end: 1 },
            local: Span { start: 1, end: 2 },
        },
        RawEvent::ElementEndEmpty,
    ];
    let mut data = InfoSetData::default();
    let doc = xml_infoset::parse::parse_events(input, &events, None, &mut data)
        .expect("well-formed events");
    let root = doc.document_element(&data);
    let name = data.element(root).expect("root resolves").local_name;
    let infoset = InfoSet { input, data };
    assert_eq!(name.get(&infoset).unwrap(), "a");
}

#[test]
fn parse_events_rejects_stray_attribute() {
    let input = "<a/>";
    let events = vec![RawEvent::Attribute {
        prefix: Span { start: 1, end: 1 },
        local: Span { start: 1, end: 2 },
        value: Span { start: 1, end: 2 },
    }];
    let mut data = InfoSetData::default();
    let r = xml_infoset::parse::parse_events(input, &events, None, &mut data);
    assert!(matches!(r, Err(ParseError::UnexpectedToken)));
}

#[test]
fn failed_parse_leaves_no_observable_entities() {
    let input = "<a><b/><!--c--></b>";
    let mut data = InfoSetData::default();
    // The events of a document whose closing tag name mismatches.
    let events = vec![
        RawEvent::ElementStart {
            prefix: Span { start: 1, end: 1 },
            local: Span { start: 1, end: 2 },
        },
        RawEvent::ElementEndOpen,
        RawEvent::ElementEndClose {
            prefix: Span { start: 1, end: 1 },
            local: Span { start: 5, end: 6 },
        },
    ];
    let r = xml_infoset::parse::parse_events(input, &events, None, &mut data);
    assert!(r.is_err());
    // Reparsing against the same store succeeds: the failed build left no
    // usable reservation or entity behind.
    let events2 = vec![
        RawEvent::ElementStart {
            prefix: Span { start: 1, end: 1 },
            local: Span { start: 1, end: 2 },
        },
        RawEvent::ElementEndEmpty,
    ];
    let doc = xml_infoset::parse::parse_events(input, &events2, None, &mut data)
        .expect("fresh build succeeds");
    assert!(data.doc(doc).is_ok());
}

#[test]
fn version_and_encoding_helpers_classify_exactly() {
    assert!(matches!(xml_infoset::parse::parse_version("1.0"), Version::Version1_0));
    assert!(matches!(xml_infoset::parse::parse_version("1.1"), Version::Version1_1));
    assert!(matches!(
        xml_infoset::parse::parse_version("1.2"),
        Version::Other(s) if s == "1.2"
    ));
    assert!(matches!(
        xml_infoset::parse::parse_encoding_scheme("UTF-8"),
        EncodingScheme::Utf8
    ));
    assert!(matches!(
        xml_infoset::parse::parse_encoding_scheme("utf-8"),
        EncodingScheme::Other(s) if s == "utf-8"
    ));
}

#[test]
fn doc_children_can_be_extended_through_the_borrow() {
    let mut infoset = parse("<a/>").unwrap();
    let doc = infoset.data.doc_info_item.unwrap();
    let root = doc.document_element(&infoset.data);
    assert!(doc.children(&infoset.data).is_empty());
    doc.children_mut(&mut infoset.data).push(DocChildInfoItem::Element(root));
    let children = doc.children(&infoset.data);
    assert_eq!(children.len(), 1);
    assert!(matches!(children[0], DocChildInfoItem::Element(h) if h == root));
}

#[test]
fn full_document_shape_is_mirrored() {
    let text = "<?xml version=\"1.0\"?><!--prolog--><root a=\"1\" xmlns:p=\"urn:p\">\
<p:inner><leaf/></p:inner><?step two?></root><!--epilog-->";
    let infoset = parse(text).expect("well-formed");
    let root = root_of(&infoset);
    let r = infoset.data.element(root).unwrap();
    assert_eq!(r.local_name.get(&infoset).unwrap(), "root");
    assert_eq!(r.children.len(), 2);
    let inner = match r.children[0] {
        ElementChildInfoItem::Element(h) => h,
        _ => panic!("expected element child"),
    };
    assert!(matches!(r.children[1], ElementChildInfoItem::PI(_)));
    let inner_d = infoset.data.element(inner).unwrap();
    assert_eq!(inner_d.local_name.get(&infoset).unwrap(), "inner");
    assert_eq!(inner_d.prefix.unwrap().get(&infoset).unwrap(), "p");
    assert_eq!(inner_d.children.len(), 1);
    let leaf = match inner_d.children[0] {
        ElementChildInfoItem::Element(h) => h,
        _ => panic!("expected element child"),
    };
    let leaf_d = infoset.data.element(leaf).unwrap();
    assert_eq!(leaf_d.local_name.get(&infoset).unwrap(), "leaf");
    assert!(leaf_d.children.is_empty());
}

#[test]
fn stray_closing_delimiter_event_is_rejected() {
    let input = "<a/>";
    let events = vec![RawEvent::ElementEndOpen];
    let mut data = InfoSetData::default();
    let r = xml_infoset::parse::parse_events(input, &events, None, &mut data);
    assert!(matches!(r, Err(ParseError::UnexpectedToken)));
}

#[test]
fn declaration_event_after_the_first_position_is_rejected() {
    let input = "<a/>";
    let events = vec![
        RawEvent::ElementStart {
            prefix: Span { start: 1, end: 1 },
            local: Span { start: 1, end: 2 },
        },
        RawEvent::Declaration {
            version: Span { start: 1, end: 2 },
            encoding: None,
            standalone: None,
        },
    ];
    let mut data = InfoSetData::default();
    let r = xml_infoset::parse::parse_events(input, &events, None, &mut data);
    assert!(matches!(r, Err(ParseError::UnexpectedToken)));
}

#[test]
fn event_span_outside_the_input_is_an_internal_error() {
    // A span that does not denote a substring of the input marks a broken
    // collaborator, not malformed input.
    let input = "<a/>";
    let events = vec![
        RawEvent::ElementStart {
            prefix: Span { start: 1, end: 1 },
            local: Span { start: 1, end: 99 },
        },
        RawEvent::ElementEndEmpty,
    ];
    let mut data = InfoSetData::default();
    let r = xml_infoset::parse::parse_events(input, &events, None, &mut data);
    assert!(matches!(r, Err(ParseError::Internal)));
}

#[test]
fn text_event_inside_an_element_is_rejected() {
    let input = "<a>t</a>";
    let events = vec![
        RawEvent::ElementStart {
            prefix: Span { start: 1, end: 1 },
            local: Span { start: 1, end: 2 },
        },
        RawEvent::ElementEndOpen,
        RawEvent::Text { text: Span { start: 3, end: 4 } },
    ];
    let mut data = InfoSetData::default();
    let r = xml_infoset::parse::parse_events(input, &events, None, &mut data);
    assert!(matches!(r, Err(ParseError::UnexpectedToken)));
}
