use xml_infoset::parse::parse;
use xml_infoset::utils::{classify_qname, QNameCategory};
use xml_infoset::{
    CommentInfoItem, CommentParentInfoItem, CowSpan, DocData, ElementInfoItem,
    ElementParentInfoItem, InfoSet, InfoSetData, NSInfoItem, NotationInfoItem, Span, StoreError,
    Transaction, UriSpan, Version, str_range,
};

#[test]
fn handle_from_one_store_fails_in_another() {
    let a = parse("<a/>").unwrap();
    let b = parse("<a/>").unwrap();
    let doc_a = a.data.doc_info_item.unwrap();
    let root_a = doc_a.document_element(&a.data);
    assert!(a.data.doc(doc_a).is_ok());
    assert!(a.data.element(root_a).is_ok());
    assert!(matches!(b.data.doc(doc_a), Err(StoreError::InvalidPointer)));
    assert!(matches!(b.data.element(root_a), Err(StoreError::InvalidPointer)));
}

#[test]
fn out_of_range_handle_fails() {
    let a = parse("<a/>").unwrap();
    let mut other = InfoSetData::default();
    let reserved = xml_infoset::DocInfoItem::new_not_yet_parsed(&mut other);
    // A reserved slot holds no node yet, and a foreign store knows nothing
    // of the handle either way.
    assert!(matches!(other.doc(reserved), Err(StoreError::InvalidPointer)));
    assert!(matches!(a.data.doc(reserved), Err(StoreError::InvalidPointer)));
}

fn doc_fields(root: ElementInfoItem) -> DocData {
    DocData {
        version: Version::Version1_0,
        character_encoding_scheme: None,
        standalone: None,
        document_element: root,
        children: Vec::new(),
        notations: None,
        unparsed_entities: Vec::new(),
        base_uri: None,
        all_declarations_processed: true,
    }
}

#[test]
fn abandoned_reservations_roll_back_to_the_pre_transaction_state() {
    let mut data = InfoSetData::default();
    let txn = Transaction::begin(&data);
    let r1 = xml_infoset::DocInfoItem::new_not_yet_parsed(&mut data);
    let r2 = xml_infoset::DocInfoItem::new_not_yet_parsed(&mut data);
    let r3 = xml_infoset::DocInfoItem::new_not_yet_parsed(&mut data);
    txn.rollback(&mut data).expect("own store");
    // No reservation is observable afterwards.
    assert!(matches!(data.doc(r1), Err(StoreError::InvalidPointer)));
    assert!(matches!(data.doc(r2), Err(StoreError::InvalidPointer)));
    assert!(matches!(data.doc(r3), Err(StoreError::InvalidPointer)));
    // A discarded reservation can never be initialized.
    let root = ElementInfoItem::new(
        None,
        Span { start: 0, end: 0 },
        None,
        Vec::new(),
        Vec::new(),
        Vec::new(),
        Vec::new(),
        None,
        ElementParentInfoItem::Doc(r1),
        &mut data,
    );
    assert!(r1
        .transition_to_parsed_from_not_yet_parsed(doc_fields(root), &mut data)
        .is_err());
    // A later transaction hands out fresh identities: no collision with the
    // rolled-back handles.
    let txn2 = Transaction::begin(&data);
    let r4 = xml_infoset::DocInfoItem::new_not_yet_parsed(&mut data);
    assert_ne!(r4, r1);
    assert_ne!(r4, r2);
    assert_ne!(r4, r3);
    r4.transition_to_parsed_from_not_yet_parsed(doc_fields(root), &mut data)
        .expect("fresh reservation initializes once");
    txn2.commit(&mut data).expect("every reservation initialized");
    assert!(data.doc(r4).is_ok());
    // Initializing twice is an error, not an overwrite.
    assert!(r4
        .transition_to_parsed_from_not_yet_parsed(doc_fields(root), &mut data)
        .is_err());
}

#[test]
fn commit_with_an_open_reservation_discards_the_transaction() {
    let mut data = InfoSetData::default();
    let txn = Transaction::begin(&data);
    let r1 = xml_infoset::DocInfoItem::new_not_yet_parsed(&mut data);
    let kept = CommentInfoItem::new(
        Span { start: 0, end: 0 },
        CommentParentInfoItem::Doc(r1),
        &mut data,
    );
    assert!(data.comment(kept).is_ok());
    assert!(txn.commit(&mut data).is_err());
    // The fully initialized insert made inside the transaction is discarded
    // with it.
    assert!(matches!(data.comment(kept), Err(StoreError::InvalidPointer)));
    assert!(matches!(data.doc(r1), Err(StoreError::InvalidPointer)));
}

#[test]
fn rollback_against_a_foreign_store_changes_nothing() {
    let data = InfoSetData::default();
    let mut other = InfoSetData::default();
    let txn = Transaction::begin(&data);
    let h = xml_infoset::DocInfoItem::new_not_yet_parsed(&mut other);
    assert!(txn.rollback(&mut other).is_err());
    // The foreign store keeps its reservation.
    assert!(h.transition_to_parsed_from_not_yet_parsed(
        doc_fields(ElementInfoItem::new(
            None,
            Span { start: 0, end: 0 },
            None,
            Vec::new(),
            Vec::new(),
            Vec::new(),
            Vec::new(),
            None,
            ElementParentInfoItem::Doc(h),
            &mut other,
        )),
        &mut other,
    )
    .is_ok());
}

#[test]
fn setters_replace_document_fields() {
    let mut infoset = parse("<a/>").unwrap();
    let doc = infoset.data.doc_info_item.unwrap();
    doc.set_version(Version::Version1_1, &mut infoset.data);
    assert!(matches!(doc.version(&infoset.data), Version::Version1_1));
    doc.set_standalone(Some(false), &mut infoset.data);
    assert_eq!(doc.standalone(&infoset.data), Some(false));
    doc.set_all_declarations_processed(false, &mut infoset.data);
    assert!(!doc.all_declarations_processed(&infoset.data));
    doc.set_base_uri(Some(UriSpan(Span { start: 0, end: 0 })), &mut infoset.data);
    assert!(doc.base_uri(&infoset.data).is_some());
    let notation = NotationInfoItem::new(
        Span { start: 1, end: 2 },
        None,
        None,
        UriSpan(Span { start: 0, end: 0 }),
        &mut infoset.data,
    );
    assert!(infoset.data.notation(notation).is_ok());
    doc.set_notations(Some(vec![notation]), &mut infoset.data);
    assert_eq!(doc.notations(&infoset.data).as_ref().map(|v| v.len()), Some(1));
    let ns = NSInfoItem::new(None, Span { start: 1, end: 2 }, &mut infoset.data);
    assert!(infoset.data.namespace_binding(ns).is_ok());
}

#[test]
fn cow_span_materializes_both_ways() {
    let infoset = parse("<abc/>").unwrap();
    let borrowed = CowSpan::Borrowed(Span { start: 1, end: 4 });
    assert_eq!(borrowed.get_ref(&infoset).unwrap(), "abc");
    let owned = CowSpan::Owned(String::from("abc"));
    assert_eq!(owned.get_ref(&infoset).unwrap(), "abc");
    let bad = CowSpan::Borrowed(Span { start: 2, end: 99 });
    assert!(bad.get_ref(&infoset).is_err());
}

#[test]
fn span_materialization_checks_bounds_and_boundaries() {
    assert_eq!(str_range("hello", 1, 3).unwrap(), "el");
    assert_eq!(str_range("hello", 5, 5).unwrap(), "");
    assert!(str_range("hello", 3, 2).is_err());
    assert!(str_range("hello", 0, 6).is_err());
    // A range that splits a two-byte character is rejected.
    assert!(str_range("é", 0, 1).is_err());
    assert_eq!(str_range("é", 0, 2).unwrap(), "é");
}

#[test]
fn every_span_of_a_successful_parse_materializes() {
    let text = "<?xml version=\"1.0\"?><wide><x über=\"ü\"/><!--héllo--><?pi dätä?></wide>";
    let infoset = parse(text).unwrap();
    let doc = infoset.data.doc_info_item.unwrap();
    let root = doc.document_element(&infoset.data);
    let elem = infoset.data.element(root).unwrap();
    assert_eq!(elem.local_name.get(&infoset).unwrap(), "wide");
    for child in elem.children.iter() {
        match child {
            xml_infoset::ElementChildInfoItem::Element(h) => {
                let d = infoset.data.element(*h).unwrap();
                assert_eq!(d.local_name.get(&infoset).unwrap(), "x");
            }
            xml_infoset::ElementChildInfoItem::Comment(h) => {
                let d = infoset.data.comment(*h).unwrap();
                assert_eq!(d.content.get(&infoset).unwrap(), "héllo");
            }
            xml_infoset::ElementChildInfoItem::PI(h) => {
                let d = infoset.data.pi(*h).unwrap();
                assert_eq!(d.target.get(&infoset).unwrap(), "pi");
                assert_eq!(d.content.unwrap().get(&infoset).unwrap(), "dätä");
            }
            _ => panic!("unexpected child kind"),
        }
    }
}

#[test]
fn qualified_names_classify_at_the_first_colon() {
    assert!(matches!(classify_qname(""), QNameCategory::NoName));
    assert!(matches!(classify_qname("abc"), QNameCategory::UnprefixedName(t) if t == "abc"));
    assert!(matches!(
        classify_qname("ns:x"),
        QNameCategory::PrefixedName(p, l) if p == "ns" && l == "x"
    ));
    assert!(matches!(
        classify_qname("a:b:c"),
        QNameCategory::PrefixedName(p, l) if p == "a" && l == "b:c"
    ));
}

#[test]
fn names_with_an_empty_part_are_no_qname() {
    // A leading or trailing colon would leave an empty prefix or local
    // part: no usable name.
    assert!(matches!(classify_qname(":x"), QNameCategory::NoName));
    assert!(matches!(classify_qname("x:"), QNameCategory::NoName));
    assert!(matches!(classify_qname(":"), QNameCategory::NoName));
}

#[test]
fn span_error_has_a_message() {
    let infoset = parse("<a/>").unwrap();
    let bad = Span { start: 3, end: 17 };
    let e = bad.get(&infoset).unwrap_err();
    assert_eq!(e.message(), "invalid string span in XML info set");
}

#[test]
fn infoset_retains_the_input_buffer() {
    let text = "<a/>";
    let infoset: InfoSet = parse(text).unwrap();
    assert_eq!(infoset.input, text);
}
