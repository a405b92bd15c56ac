//! The entity store: one growable table per node kind, typed copyable
//! handles, and a preallocation transaction with all-or-nothing commit.
//!
//! A handle is dereferenceable only through the store that created it; a
//! handle presented to a different store, or one whose slot was never
//! initialized, fails with [`StoreError::InvalidPointer`] rather than
//! aliasing an unrelated node.

use vstd::prelude::*;

use crate::{CowSpan, EncodingScheme, EncodingSchemeView, Never, Span, UnknownOr, UriSpan, Version,
    VersionView};
use std::collections::hash_map::RandomState;
use std::hash::{BuildHasher, Hasher};

verus! {

use std::collections::hash_map::DefaultHasher;

/// A handle was dereferenced against a store that did not create it, or its
/// slot holds no initialized node. This indicates a defect in the code that
/// built the graph, not malformed input.
#[derive(Clone, Copy, PartialEq, Eq, Structural, Debug)]
pub enum StoreError {
    InvalidPointer,
}

/// One slot of an entity table.
///
/// `Reserved` is a preallocated identity whose value is not yet known;
/// `Filled` holds a node; `Discarded` marks a slot given out inside a
/// transaction that was rolled back, so the index is never reused.
#[derive(Clone, Debug)]
pub enum Slot<T> {
    Reserved,
    Filled(T),
    Discarded,
}

impl<T> Slot<T> {
    /// The node a filled slot holds.
    pub open spec fn value(self) -> T
        recommends
            self is Filled,
    {
        self->Filled_0
    }
}

/// The abstraction of a slot: the same slot over the abstraction of its node.
pub open spec fn slot_view<T: View>(s: Slot<T>) -> Slot<T::V> {
    match s {
        Slot::Reserved => Slot::Reserved,
        Slot::Filled(t) => Slot::Filled(t@),
        Slot::Discarded => Slot::Discarded,
    }
}

// ---------------------------------------------------------------------------
// Typed handles, one per node kind.
//
// A handle is a copyable (store identity, slot index) pair. Its fields are
// not reachable from outside the crate, so the store's own operations are the
// only way to obtain one.
// ---------------------------------------------------------------------------

/// Handle of the document node.
#[derive(Clone, Copy, PartialEq, Eq, Structural, Debug)]
pub struct DocInfoItem {
    pub(crate) sid: u64,
    pub(crate) idx: usize,
}

impl DocInfoItem {
    /// The identity token of the store that created this handle.
    pub closed spec fn store_id(self) -> u64 {
        self.sid
    }

    /// The handle's slot index in the document table.
    pub closed spec fn index(self) -> int {
        self.idx as int
    }

    /// The handle with the given store identity and slot index.
    pub closed spec fn mk(sid: u64, idx: int) -> DocInfoItem {
        DocInfoItem { sid, idx: idx as usize }
    }

    /// `mk` builds the handle whose identity and index are its arguments.
    pub proof fn lemma_mk(sid: u64, idx: int)
        requires
            0 <= idx <= usize::MAX,
        ensures
            Self::mk(sid, idx).store_id() == sid,
            Self::mk(sid, idx).index() == idx,
    {
    }
}

/// Handle of an element node.
#[derive(Clone, Copy, PartialEq, Eq, Structural, Debug)]
pub struct ElementInfoItem {
    pub(crate) sid: u64,
    pub(crate) idx: usize,
}

impl ElementInfoItem {
    /// The identity token of the store that created this handle.
    pub closed spec fn store_id(self) -> u64 {
        self.sid
    }

    /// The handle's slot index in the element table.
    pub closed spec fn index(self) -> int {
        self.idx as int
    }

    /// The handle with the given store identity and slot index.
    pub closed spec fn mk(sid: u64, idx: int) -> ElementInfoItem {
        ElementInfoItem { sid, idx: idx as usize }
    }

    /// `mk` builds the handle whose identity and index are its arguments.
    pub proof fn lemma_mk(sid: u64, idx: int)
        requires
            0 <= idx <= usize::MAX,
        ensures
            Self::mk(sid, idx).store_id() == sid,
            Self::mk(sid, idx).index() == idx,
    {
    }
}

/// Handle of an attribute node.
#[derive(Clone, Copy, PartialEq, Eq, Structural, Debug)]
pub struct AttributeInfoItem {
    pub(crate) sid: u64,
    pub(crate) idx: usize,
}

impl AttributeInfoItem {
    /// The identity token of the store that created this handle.
    pub closed spec fn store_id(self) -> u64 {
        self.sid
    }

    /// The handle's slot index in the attribute table.
    pub closed spec fn index(self) -> int {
        self.idx as int
    }

    /// The handle with the given store identity and slot index.
    pub closed spec fn mk(sid: u64, idx: int) -> AttributeInfoItem {
        AttributeInfoItem { sid, idx: idx as usize }
    }

    /// `mk` builds the handle whose identity and index are its arguments.
    pub proof fn lemma_mk(sid: u64, idx: int)
        requires
            0 <= idx <= usize::MAX,
        ensures
            Self::mk(sid, idx).store_id() == sid,
            Self::mk(sid, idx).index() == idx,
    {
    }
}

/// Handle of a processing-instruction node.
#[derive(Clone, Copy, PartialEq, Eq, Structural, Debug)]
pub struct PIInfoItem {
    pub(crate) sid: u64,
    pub(crate) idx: usize,
}

impl PIInfoItem {
    /// The identity token of the store that created this handle.
    pub closed spec fn store_id(self) -> u64 {
        self.sid
    }

    /// The handle's slot index in the processing-instruction table.
    pub closed spec fn index(self) -> int {
        self.idx as int
    }

    /// The handle with the given store identity and slot index.
    pub closed spec fn mk(sid: u64, idx: int) -> PIInfoItem {
        PIInfoItem { sid, idx: idx as usize }
    }

    /// `mk` builds the handle whose identity and index are its arguments.
    pub proof fn lemma_mk(sid: u64, idx: int)
        requires
            0 <= idx <= usize::MAX,
        ensures
            Self::mk(sid, idx).store_id() == sid,
            Self::mk(sid, idx).index() == idx,
    {
    }
}

/// Handle of an unexpanded-entity-reference node.
#[derive(Clone, Copy, PartialEq, Eq, Structural, Debug)]
pub struct UERInfoItem {
    pub(crate) sid: u64,
    pub(crate) idx: usize,
}

impl UERInfoItem {
    /// The identity token of the store that created this handle.
    pub closed spec fn store_id(self) -> u64 {
        self.sid
    }

    /// The handle's slot index in the unexpanded-entity-reference table.
    pub closed spec fn index(self) -> int {
        self.idx as int
    }

    /// The handle with the given store identity and slot index.
    pub closed spec fn mk(sid: u64, idx: int) -> UERInfoItem {
        UERInfoItem { sid, idx: idx as usize }
    }

    /// `mk` builds the handle whose identity and index are its arguments.
    pub proof fn lemma_mk(sid: u64, idx: int)
        requires
            0 <= idx <= usize::MAX,
        ensures
            Self::mk(sid, idx).store_id() == sid,
            Self::mk(sid, idx).index() == idx,
    {
    }
}

/// Handle of a character-group node.
#[derive(Clone, Copy, PartialEq, Eq, Structural, Debug)]
pub struct CharGroupInfoItem {
    pub(crate) sid: u64,
    pub(crate) idx: usize,
}

impl CharGroupInfoItem {
    /// The identity token of the store that created this handle.
    pub closed spec fn store_id(self) -> u64 {
        self.sid
    }

    /// The handle's slot index in the character-group table.
    pub closed spec fn index(self) -> int {
        self.idx as int
    }

    /// The handle with the given store identity and slot index.
    pub closed spec fn mk(sid: u64, idx: int) -> CharGroupInfoItem {
        CharGroupInfoItem { sid, idx: idx as usize }
    }

    /// `mk` builds the handle whose identity and index are its arguments.
    pub proof fn lemma_mk(sid: u64, idx: int)
        requires
            0 <= idx <= usize::MAX,
        ensures
            Self::mk(sid, idx).store_id() == sid,
            Self::mk(sid, idx).index() == idx,
    {
    }
}

/// Handle of a comment node.
#[derive(Clone, Copy, PartialEq, Eq, Structural, Debug)]
pub struct CommentInfoItem {
    pub(crate) sid: u64,
    pub(crate) idx: usize,
}

impl CommentInfoItem {
    /// The identity token of the store that created this handle.
    pub closed spec fn store_id(self) -> u64 {
        self.sid
    }

    /// The handle's slot index in the comment table.
    pub closed spec fn index(self) -> int {
        self.idx as int
    }

    /// The handle with the given store identity and slot index.
    pub closed spec fn mk(sid: u64, idx: int) -> CommentInfoItem {
        CommentInfoItem { sid, idx: idx as usize }
    }

    /// `mk` builds the handle whose identity and index are its arguments.
    pub proof fn lemma_mk(sid: u64, idx: int)
        requires
            0 <= idx <= usize::MAX,
        ensures
            Self::mk(sid, idx).store_id() == sid,
            Self::mk(sid, idx).index() == idx,
    {
    }
}

/// Handle of the document-type-declaration node.
#[derive(Clone, Copy, PartialEq, Eq, Structural, Debug)]
pub struct DTDInfoItem {
    pub(crate) sid: u64,
    pub(crate) idx: usize,
}

impl DTDInfoItem {
    /// The identity token of the store that created this handle.
    pub closed spec fn store_id(self) -> u64 {
        self.sid
    }

    /// The handle's slot index in the document-type-declaration table.
    pub closed spec fn index(self) -> int {
        self.idx as int
    }

    /// The handle with the given store identity and slot index.
    pub closed spec fn mk(sid: u64, idx: int) -> DTDInfoItem {
        DTDInfoItem { sid, idx: idx as usize }
    }

    /// `mk` builds the handle whose identity and index are its arguments.
    pub proof fn lemma_mk(sid: u64, idx: int)
        requires
            0 <= idx <= usize::MAX,
        ensures
            Self::mk(sid, idx).store_id() == sid,
            Self::mk(sid, idx).index() == idx,
    {
    }
}

/// Handle of an unparsed-entity node.
#[derive(Clone, Copy, PartialEq, Eq, Structural, Debug)]
pub struct UEInfoItem {
    pub(crate) sid: u64,
    pub(crate) idx: usize,
}

impl UEInfoItem {
    /// The identity token of the store that created this handle.
    pub closed spec fn store_id(self) -> u64 {
        self.sid
    }

    /// The handle's slot index in the unparsed-entity table.
    pub closed spec fn index(self) -> int {
        self.idx as int
    }

    /// The handle with the given store identity and slot index.
    pub closed spec fn mk(sid: u64, idx: int) -> UEInfoItem {
        UEInfoItem { sid, idx: idx as usize }
    }

    /// `mk` builds the handle whose identity and index are its arguments.
    pub proof fn lemma_mk(sid: u64, idx: int)
        requires
            0 <= idx <= usize::MAX,
        ensures
            Self::mk(sid, idx).store_id() == sid,
            Self::mk(sid, idx).index() == idx,
    {
    }
}

/// Handle of a notation node.
#[derive(Clone, Copy, PartialEq, Eq, Structural, Debug)]
pub struct NotationInfoItem {
    pub(crate) sid: u64,
    pub(crate) idx: usize,
}

impl NotationInfoItem {
    /// The identity token of the store that created this handle.
    pub closed spec fn store_id(self) -> u64 {
        self.sid
    }

    /// The handle's slot index in the notation table.
    pub closed spec fn index(self) -> int {
        self.idx as int
    }

    /// The handle with the given store identity and slot index.
    pub closed spec fn mk(sid: u64, idx: int) -> NotationInfoItem {
        NotationInfoItem { sid, idx: idx as usize }
    }

    /// `mk` builds the handle whose identity and index are its arguments.
    pub proof fn lemma_mk(sid: u64, idx: int)
        requires
            0 <= idx <= usize::MAX,
        ensures
            Self::mk(sid, idx).store_id() == sid,
            Self::mk(sid, idx).index() == idx,
    {
    }
}

/// Handle of a namespace-binding node.
#[derive(Clone, Copy, PartialEq, Eq, Structural, Debug)]
pub struct NSInfoItem {
    pub(crate) sid: u64,
    pub(crate) idx: usize,
}

impl NSInfoItem {
    /// The identity token of the store that created this handle.
    pub closed spec fn store_id(self) -> u64 {
        self.sid
    }

    /// The handle's slot index in the namespace-binding table.
    pub closed spec fn index(self) -> int {
        self.idx as int
    }

    /// The handle with the given store identity and slot index.
    pub closed spec fn mk(sid: u64, idx: int) -> NSInfoItem {
        NSInfoItem { sid, idx: idx as usize }
    }

    /// `mk` builds the handle whose identity and index are its arguments.
    pub proof fn lemma_mk(sid: u64, idx: int)
        requires
            0 <= idx <= usize::MAX,
        ensures
            Self::mk(sid, idx).store_id() == sid,
            Self::mk(sid, idx).index() == idx,
    {
    }
}

// ---------------------------------------------------------------------------
// Closed unions of the handle kinds a relationship may point at.
// ---------------------------------------------------------------------------

/// A child of the document node.
#[derive(Clone, Copy, PartialEq, Eq, Structural, Debug)]
pub enum DocChildInfoItem {
    Element(ElementInfoItem),
    PI(PIInfoItem),
    Comment(CommentInfoItem),
    DTD(DTDInfoItem),
}

/// A child of an element node.
#[derive(Clone, Copy, PartialEq, Eq, Structural, Debug)]
pub enum ElementChildInfoItem {
    Element(ElementInfoItem),
    PI(PIInfoItem),
    UER(UERInfoItem),
    CharGroup(CharGroupInfoItem),
    Comment(CommentInfoItem),
}

/// The parent of an element node.
#[derive(Clone, Copy, PartialEq, Eq, Structural, Debug)]
pub enum ElementParentInfoItem {
    Doc(DocInfoItem),
    Element(ElementInfoItem),
}

/// A node an attribute's type information may reference.
#[derive(Clone, Copy, PartialEq, Eq, Structural, Debug)]
pub enum AttrReferenceInfoItem {
    Element(ElementInfoItem),
    UE(UEInfoItem),
    Notation(NotationInfoItem),
}

/// The parent of a processing-instruction node.
#[derive(Clone, Copy, PartialEq, Eq, Structural, Debug)]
pub enum PIParentInfoItem {
    Doc(DocInfoItem),
    Element(ElementInfoItem),
    DTD(DTDInfoItem),
}

/// The parent of a comment node.
#[derive(Clone, Copy, PartialEq, Eq, Structural, Debug)]
pub enum CommentParentInfoItem {
    Doc(DocInfoItem),
    Element(ElementInfoItem),
}

/// Whether an attribute occurrence was written in the tag or defaulted from
/// the document type declaration.
#[derive(Clone, Copy, PartialEq, Eq, Structural, Debug)]
pub enum AttrSpecified {
    Specified,
    DefaultedFromDTD,
}

/// An attribute's declared type together with the references it resolves to.
#[derive(Clone, Debug)]
pub enum AttrTypeAndReferences {
    ID(Option<Never>),
    IDREF(Option<Vec<AttrReferenceInfoItem>>),
    IDREFS,
    ENTITY,
    ENTITIES,
    NMTOKEN(Option<Never>),
    NMTOKENS(Option<Never>),
    NOTATION,
    CDATA(Option<Never>),
    ENUMERATION(Option<Never>),
}

// ---------------------------------------------------------------------------
// The node records, one per kind, owned exclusively by the store.
// ---------------------------------------------------------------------------

/// The document node's fields, supplied together when the reserved document
/// slot transitions to the parsed state.
#[derive(Debug)]
pub struct DocData {
    pub version: Version,
    pub character_encoding_scheme: Option<EncodingScheme>,
    pub standalone: Option<bool>,
    pub document_element: ElementInfoItem,
    pub children: Vec<DocChildInfoItem>,
    pub notations: Option<Vec<NotationInfoItem>>,
    pub unparsed_entities: Vec<UEInfoItem>,
    pub base_uri: Option<UriSpan>,
    pub all_declarations_processed: bool,
}

/// The abstraction of a document node.
#[verifier::ext_equal]
pub ghost struct DocView {
    pub version: VersionView,
    pub character_encoding_scheme: Option<EncodingSchemeView>,
    pub standalone: Option<bool>,
    pub document_element: ElementInfoItem,
    pub children: Seq<DocChildInfoItem>,
    pub notations: Option<Seq<NotationInfoItem>>,
    pub unparsed_entities: Seq<UEInfoItem>,
    pub base_uri: Option<UriSpan>,
    pub all_declarations_processed: bool,
}

/// The abstraction of an optional encoding scheme.
pub open spec fn opt_encoding_view(o: Option<EncodingScheme>) -> Option<EncodingSchemeView> {
    match o {
        Option::Some(e) => Option::Some(e@),
        Option::None => Option::None,
    }
}

/// The abstraction of an optional list: the sequence of its members.
pub open spec fn opt_seq_view<T>(o: Option<Vec<T>>) -> Option<Seq<T>> {
    match o {
        Option::Some(v) => Option::Some(v@),
        Option::None => Option::None,
    }
}

impl View for DocData {
    type V = DocView;

    open spec fn view(&self) -> DocView {
        DocView {
            version: self.version@,
            character_encoding_scheme: opt_encoding_view(self.character_encoding_scheme),
            standalone: self.standalone,
            document_element: self.document_element,
            children: self.children@,
            notations: opt_seq_view(self.notations),
            unparsed_entities: self.unparsed_entities@,
            base_uri: self.base_uri,
            all_declarations_processed: self.all_declarations_processed,
        }
    }
}

/// An element node's fields.
#[derive(Debug)]
pub struct ElementData {
    pub namespace_name: Option<Span>,
    pub local_name: Span,
    pub prefix: Option<Span>,
    pub children: Vec<ElementChildInfoItem>,
    pub attributes: Vec<AttributeInfoItem>,
    pub namespace_attributes: Vec<AttributeInfoItem>,
    pub in_scope_namespaces: Vec<NSInfoItem>,
    pub base_uri: Option<UriSpan>,
    pub parent: ElementParentInfoItem,
}

/// The abstraction of an element node.
#[verifier::ext_equal]
pub ghost struct ElementView {
    pub namespace_name: Option<Span>,
    pub local_name: Span,
    pub prefix: Option<Span>,
    pub children: Seq<ElementChildInfoItem>,
    pub attributes: Seq<AttributeInfoItem>,
    pub namespace_attributes: Seq<AttributeInfoItem>,
    pub in_scope_namespaces: Seq<NSInfoItem>,
    pub base_uri: Option<UriSpan>,
    pub parent: ElementParentInfoItem,
}

impl View for ElementData {
    type V = ElementView;

    open spec fn view(&self) -> ElementView {
        ElementView {
            namespace_name: self.namespace_name,
            local_name: self.local_name,
            prefix: self.prefix,
            children: self.children@,
            attributes: self.attributes@,
            namespace_attributes: self.namespace_attributes@,
            in_scope_namespaces: self.in_scope_namespaces@,
            base_uri: self.base_uri,
            parent: self.parent,
        }
    }
}

/// An attribute node's fields.
#[derive(Debug)]
pub struct AttributeData {
    pub namespace_name: Option<Span>,
    pub local_name: Span,
    pub prefix: Option<Span>,
    pub normalized_value: CowSpan,
    pub specified: AttrSpecified,
    pub attribute_type_and_references: Option<UnknownOr<AttrTypeAndReferences>>,
    pub owner_element: ElementInfoItem,
}

/// A processing-instruction node's fields.
#[derive(Clone, Copy, Debug)]
pub struct PIData {
    pub target: Span,
    pub content: Option<Span>,
    pub base_uri: Option<UriSpan>,
    pub notation: Option<UnknownOr<NotationInfoItem>>,
    pub parent: PIParentInfoItem,
}

/// An unexpanded-entity-reference node's fields.
#[derive(Clone, Copy, Debug)]
pub struct UERData {
    pub name: Span,
    pub system_identifier: UnknownOr<Option<Span>>,
    pub public_identifier: UnknownOr<Option<Span>>,
    pub declaration_base_uri: UnknownOr<Option<UriSpan>>,
    pub parent: ElementInfoItem,
}

/// A character-group node's fields.
#[derive(Clone, Debug)]
pub struct CharGroupData {
    pub characters: CowSpan,
    pub element_content_whitespace: UnknownOr<Option<bool>>,
    pub parent: ElementInfoItem,
}

/// A comment node's fields.
#[derive(Clone, Copy, Debug)]
pub struct CommentData {
    pub content: Span,
    pub parent: CommentParentInfoItem,
}

/// The document-type-declaration node's fields.
#[derive(Debug)]
pub struct DTDData {
    pub system_identifier: Option<Span>,
    pub public_identifier: Option<Span>,
    pub children: Vec<PIInfoItem>,
    pub parent: DocInfoItem,
}

/// The abstraction of a document-type-declaration node.
pub ghost struct DTDView {
    pub system_identifier: Option<Span>,
    pub public_identifier: Option<Span>,
    pub children: Seq<PIInfoItem>,
    pub parent: DocInfoItem,
}

impl View for DTDData {
    type V = DTDView;

    open spec fn view(&self) -> DTDView {
        DTDView {
            system_identifier: self.system_identifier,
            public_identifier: self.public_identifier,
            children: self.children@,
            parent: self.parent,
        }
    }
}

/// An unparsed-entity node's fields.
#[derive(Clone, Copy, Debug)]
pub struct UEData {
    pub name: Span,
    pub system_identifier: Span,
    pub public_identifier: Option<Span>,
    pub declaration_base_uri: UriSpan,
    pub notation_name: Span,
    pub notation: UnknownOr<Option<NotationInfoItem>>,
}

/// A notation node's fields.
#[derive(Clone, Copy, Debug)]
pub struct NotationData {
    pub name: Span,
    pub system_identifier: Option<Span>,
    pub public_identifier: Option<Span>,
    pub declaration_base_uri: UriSpan,
}

/// A namespace-binding node's fields.
#[derive(Clone, Copy, Debug)]
pub struct NSData {
    pub prefix: Option<Span>,
    pub namespace_name: Span,
}

// ---------------------------------------------------------------------------
// The store.
// ---------------------------------------------------------------------------

/// The abstraction of an [`InfoSetData`]: its identity token and the eleven
/// tables as sequences of slots.
#[verifier::ext_equal]
pub ghost struct StoreV {
    pub sid: u64,
    pub doc_info_item: Option<DocInfoItem>,
    pub docs: Seq<Slot<DocView>>,
    pub elements: Seq<Slot<ElementView>>,
    pub attributes: Seq<Slot<AttributeData>>,
    pub pis: Seq<Slot<PIData>>,
    pub uers: Seq<Slot<UERData>>,
    pub char_groups: Seq<Slot<CharGroupData>>,
    pub comments: Seq<Slot<CommentData>>,
    pub dtds: Seq<Slot<DTDView>>,
    pub unparsed_entities: Seq<Slot<UEData>>,
    pub notations: Seq<Slot<NotationData>>,
    pub namespaces: Seq<Slot<NSData>>,
}

impl StoreV {
    /// Whether `h` names an initialized document slot of this store.
    pub open spec fn doc_ok(self, h: DocInfoItem) -> bool {
        &&& h.store_id() == self.sid
        &&& 0 <= h.index() < self.docs.len()
        &&& self.docs[h.index()] is Filled
    }

    /// The document node `h` names.
    pub open spec fn doc_at(self, h: DocInfoItem) -> DocView {
        self.docs[h.index()].value()
    }

    /// Whether `h` names a reserved, not yet initialized document slot.
    pub open spec fn doc_reserved(self, h: DocInfoItem) -> bool {
        &&& h.store_id() == self.sid
        &&& 0 <= h.index() < self.docs.len()
        &&& self.docs[h.index()] is Reserved
    }

    /// Whether `h` names an initialized element slot of this store.
    pub open spec fn element_ok(self, h: ElementInfoItem) -> bool {
        &&& h.store_id() == self.sid
        &&& 0 <= h.index() < self.elements.len()
        &&& self.elements[h.index()] is Filled
    }

    /// The element node `h` names.
    pub open spec fn element_at(self, h: ElementInfoItem) -> ElementView {
        self.elements[h.index()].value()
    }

    /// Whether `h` names an initialized attribute slot of this store.
    pub open spec fn attribute_ok(self, h: AttributeInfoItem) -> bool {
        &&& h.store_id() == self.sid
        &&& 0 <= h.index() < self.attributes.len()
        &&& self.attributes[h.index()] is Filled
    }

    /// Whether `h` names an initialized processing-instruction slot.
    pub open spec fn pi_ok(self, h: PIInfoItem) -> bool {
        &&& h.store_id() == self.sid
        &&& 0 <= h.index() < self.pis.len()
        &&& self.pis[h.index()] is Filled
    }

    /// The processing-instruction node `h` names.
    pub open spec fn pi_at(self, h: PIInfoItem) -> PIData {
        self.pis[h.index()].value()
    }

    /// Whether `h` names an initialized unexpanded-entity-reference slot.
    pub open spec fn uer_ok(self, h: UERInfoItem) -> bool {
        &&& h.store_id() == self.sid
        &&& 0 <= h.index() < self.uers.len()
        &&& self.uers[h.index()] is Filled
    }

    /// Whether `h` names an initialized character-group slot.
    pub open spec fn char_group_ok(self, h: CharGroupInfoItem) -> bool {
        &&& h.store_id() == self.sid
        &&& 0 <= h.index() < self.char_groups.len()
        &&& self.char_groups[h.index()] is Filled
    }

    /// Whether `h` names an initialized comment slot of this store.
    pub open spec fn comment_ok(self, h: CommentInfoItem) -> bool {
        &&& h.store_id() == self.sid
        &&& 0 <= h.index() < self.comments.len()
        &&& self.comments[h.index()] is Filled
    }

    /// The comment node `h` names.
    pub open spec fn comment_at(self, h: CommentInfoItem) -> CommentData {
        self.comments[h.index()].value()
    }

    /// Whether `h` names an initialized document-type-declaration slot.
    pub open spec fn dtd_ok(self, h: DTDInfoItem) -> bool {
        &&& h.store_id() == self.sid
        &&& 0 <= h.index() < self.dtds.len()
        &&& self.dtds[h.index()] is Filled
    }

    /// Whether `h` names an initialized unparsed-entity slot.
    pub open spec fn unparsed_entity_ok(self, h: UEInfoItem) -> bool {
        &&& h.store_id() == self.sid
        &&& 0 <= h.index() < self.unparsed_entities.len()
        &&& self.unparsed_entities[h.index()] is Filled
    }

    /// Whether `h` names an initialized notation slot of this store.
    pub open spec fn notation_ok(self, h: NotationInfoItem) -> bool {
        &&& h.store_id() == self.sid
        &&& 0 <= h.index() < self.notations.len()
        &&& self.notations[h.index()] is Filled
    }

    /// Whether `h` names an initialized namespace-binding slot.
    pub open spec fn namespace_ok(self, h: NSInfoItem) -> bool {
        &&& h.store_id() == self.sid
        &&& 0 <= h.index() < self.namespaces.len()
        &&& self.namespaces[h.index()] is Filled
    }
}

/// The entity store: the owning tables of every node produced during one
/// parse, one growable table per node kind.
pub struct InfoSetData {
    /// The document node of a finished parse, if one has been recorded.
    pub doc_info_item: Option<DocInfoItem>,
    sid: u64,
    docs: Vec<Slot<DocData>>,
    elements: Vec<Slot<ElementData>>,
    attributes: Vec<Slot<AttributeData>>,
    pis: Vec<Slot<PIData>>,
    uers: Vec<Slot<UERData>>,
    char_groups: Vec<Slot<CharGroupData>>,
    comments: Vec<Slot<CommentData>>,
    dtds: Vec<Slot<DTDData>>,
    unparsed_entities: Vec<Slot<UEData>>,
    notations: Vec<Slot<NotationData>>,
    namespaces: Vec<Slot<NSData>>,
}

impl View for InfoSetData {
    type V = StoreV;

    closed spec fn view(&self) -> StoreV {
        StoreV {
            sid: self.sid,
            doc_info_item: self.doc_info_item,
            docs: self.docs@.map_values(|s: Slot<DocData>| slot_view(s)),
            elements: self.elements@.map_values(|s: Slot<ElementData>| slot_view(s)),
            attributes: self.attributes@,
            pis: self.pis@,
            uers: self.uers@,
            char_groups: self.char_groups@,
            comments: self.comments@,
            dtds: self.dtds@.map_values(|s: Slot<DTDData>| slot_view(s)),
            unparsed_entities: self.unparsed_entities@,
            notations: self.notations@,
            namespaces: self.namespaces@,
        }
    }
}

/// Relies on `std::collections::hash_map::RandomState::new`: a hasher
/// factory seeded by the standard library such that distinct factories are
/// practically certain to produce hashers with distinct digests. Nothing is
/// assumed about the value it returns.
pub assume_specification [ RandomState::new ] () -> RandomState;

/// Relies on `<RandomState as std::hash::BuildHasher>::build_hasher`: builds
/// a hasher carrying the factory's random seed. Nothing is assumed about the
/// value it returns.
pub assume_specification [ <RandomState as BuildHasher>::build_hasher ] (
    s: &RandomState,
) -> DefaultHasher;

/// A fresh identity token for a new store: the digest of a hasher built from
/// a randomly seeded factory. Nothing is proved about its value; in practice
/// two stores in one process draw distinct tokens.
fn fresh_store_id() -> u64 {
    let state = RandomState::new();
    let hasher = state.build_hasher();
    hasher.finish()
}

impl Default for InfoSetData {
    /// A new, empty store: no document recorded, every table empty.
    fn default() -> (r: InfoSetData)
        ensures
            r@.doc_info_item is None,
            r@.docs =~= Seq::<Slot<DocView>>::empty(),
            r@.elements =~= Seq::<Slot<ElementView>>::empty(),
            r@.attributes =~= Seq::<Slot<AttributeData>>::empty(),
            r@.pis =~= Seq::<Slot<PIData>>::empty(),
            r@.uers =~= Seq::<Slot<UERData>>::empty(),
            r@.char_groups =~= Seq::<Slot<CharGroupData>>::empty(),
            r@.comments =~= Seq::<Slot<CommentData>>::empty(),
            r@.dtds =~= Seq::<Slot<DTDView>>::empty(),
            r@.unparsed_entities =~= Seq::<Slot<UEData>>::empty(),
            r@.notations =~= Seq::<Slot<NotationData>>::empty(),
            r@.namespaces =~= Seq::<Slot<NSData>>::empty(),
    {
        InfoSetData {
            doc_info_item: None,
            sid: fresh_store_id(),
            docs: Vec::new(),
            elements: Vec::new(),
            attributes: Vec::new(),
            pis: Vec::new(),
            uers: Vec::new(),
            char_groups: Vec::new(),
            comments: Vec::new(),
            dtds: Vec::new(),
            unparsed_entities: Vec::new(),
            notations: Vec::new(),
            namespaces: Vec::new(),
        }
    }
}

impl InfoSetData {
    /// Resolve a document handle. Fails with an invalid-pointer condition
    /// when the handle was created by a different store or its slot holds no
    /// initialized node.
    pub fn doc(&self, h: DocInfoItem) -> (r: Result<&DocData, StoreError>)
        ensures
            r is Ok <==> self@.doc_ok(h),
            r matches Ok(d) ==> self@.docs[h.index()] == Slot::Filled(d@),
    {
        if h.sid == self.sid && h.idx < self.docs.len() {
            match &self.docs[h.idx] {
                Slot::Filled(d) => Ok(d),
                _ => Err(StoreError::InvalidPointer),
            }
        } else {
            Err(StoreError::InvalidPointer)
        }
    }

    /// Resolve an element handle; fails as [`InfoSetData::doc`] does.
    pub fn element(&self, h: ElementInfoItem) -> (r: Result<&ElementData, StoreError>)
        ensures
            r is Ok <==> self@.element_ok(h),
            r matches Ok(d) ==> self@.elements[h.index()] == Slot::Filled(d@),
    {
        if h.sid == self.sid && h.idx < self.elements.len() {
            match &self.elements[h.idx] {
                Slot::Filled(d) => Ok(d),
                _ => Err(StoreError::InvalidPointer),
            }
        } else {
            Err(StoreError::InvalidPointer)
        }
    }

    /// Resolve an attribute handle; fails as [`InfoSetData::doc`] does.
    pub fn attribute(&self, h: AttributeInfoItem) -> (r: Result<&AttributeData, StoreError>)
        ensures
            r is Ok <==> self@.attribute_ok(h),
            r matches Ok(d) ==> self@.attributes[h.index()] is Filled && self@.attributes[
                h.index()
            ].value() == *d,
    {
        if h.sid == self.sid && h.idx < self.attributes.len() {
            match &self.attributes[h.idx] {
                Slot::Filled(d) => Ok(d),
                _ => Err(StoreError::InvalidPointer),
            }
        } else {
            Err(StoreError::InvalidPointer)
        }
    }

    /// Resolve a processing-instruction handle; fails as [`InfoSetData::doc`]
    /// does.
    pub fn pi(&self, h: PIInfoItem) -> (r: Result<&PIData, StoreError>)
        ensures
            r is Ok <==> self@.pi_ok(h),
            r matches Ok(d) ==> self@.pis[h.index()] == Slot::Filled(*d),
    {
        if h.sid == self.sid && h.idx < self.pis.len() {
            match &self.pis[h.idx] {
                Slot::Filled(d) => Ok(d),
                _ => Err(StoreError::InvalidPointer),
            }
        } else {
            Err(StoreError::InvalidPointer)
        }
    }

    /// Resolve an unexpanded-entity-reference handle; fails as
    /// [`InfoSetData::doc`] does.
    pub fn uer(&self, h: UERInfoItem) -> (r: Result<&UERData, StoreError>)
        ensures
            r is Ok <==> self@.uer_ok(h),
            r matches Ok(d) ==> self@.uers[h.index()] == Slot::Filled(*d),
    {
        if h.sid == self.sid && h.idx < self.uers.len() {
            match &self.uers[h.idx] {
                Slot::Filled(d) => Ok(d),
                _ => Err(StoreError::InvalidPointer),
            }
        } else {
            Err(StoreError::InvalidPointer)
        }
    }

    /// Resolve a character-group handle; fails as [`InfoSetData::doc`] does.
    pub fn char_group(&self, h: CharGroupInfoItem) -> (r: Result<
        &CharGroupData,
        StoreError,
    >)
        ensures
            r is Ok <==> self@.char_group_ok(h),
            r matches Ok(d) ==> self@.char_groups[h.index()] is Filled && self@.char_groups[
                h.index()
            ].value() == *d,
    {
        if h.sid == self.sid && h.idx < self.char_groups.len() {
            match &self.char_groups[h.idx] {
                Slot::Filled(d) => Ok(d),
                _ => Err(StoreError::InvalidPointer),
            }
        } else {
            Err(StoreError::InvalidPointer)
        }
    }

    /// Resolve a comment handle; fails as [`InfoSetData::doc`] does.
    pub fn comment(&self, h: CommentInfoItem) -> (r: Result<&CommentData, StoreError>)
        ensures
            r is Ok <==> self@.comment_ok(h),
            r matches Ok(d) ==> self@.comments[h.index()] == Slot::Filled(*d),
    {
        if h.sid == self.sid && h.idx < self.comments.len() {
            match &self.comments[h.idx] {
                Slot::Filled(d) => Ok(d),
                _ => Err(StoreError::InvalidPointer),
            }
        } else {
            Err(StoreError::InvalidPointer)
        }
    }

    /// Resolve a document-type-declaration handle; fails as
    /// [`InfoSetData::doc`] does.
    pub fn dtd(&self, h: DTDInfoItem) -> (r: Result<&DTDData, StoreError>)
        ensures
            r is Ok <==> self@.dtd_ok(h),
            r matches Ok(d) ==> self@.dtds[h.index()] == Slot::Filled(d@),
    {
        if h.sid == self.sid && h.idx < self.dtds.len() {
            match &self.dtds[h.idx] {
                Slot::Filled(d) => Ok(d),
                _ => Err(StoreError::InvalidPointer),
            }
        } else {
            Err(StoreError::InvalidPointer)
        }
    }

    /// Resolve an unparsed-entity handle; fails as [`InfoSetData::doc`] does.
    pub fn unparsed_entity(&self, h: UEInfoItem) -> (r: Result<&UEData, StoreError>)
        ensures
            r is Ok <==> self@.unparsed_entity_ok(h),
            r matches Ok(d) ==> self@.unparsed_entities[h.index()] == Slot::Filled(*d),
    {
        if h.sid == self.sid && h.idx < self.unparsed_entities.len() {
            match &self.unparsed_entities[h.idx] {
                Slot::Filled(d) => Ok(d),
                _ => Err(StoreError::InvalidPointer),
            }
        } else {
            Err(StoreError::InvalidPointer)
        }
    }

    /// Resolve a notation handle; fails as [`InfoSetData::doc`] does.
    pub fn notation(&self, h: NotationInfoItem) -> (r: Result<&NotationData, StoreError>)
        ensures
            r is Ok <==> self@.notation_ok(h),
            r matches Ok(d) ==> self@.notations[h.index()] == Slot::Filled(*d),
    {
        if h.sid == self.sid && h.idx < self.notations.len() {
            match &self.notations[h.idx] {
                Slot::Filled(d) => Ok(d),
                _ => Err(StoreError::InvalidPointer),
            }
        } else {
            Err(StoreError::InvalidPointer)
        }
    }

    /// Resolve a namespace-binding handle; fails as [`InfoSetData::doc`]
    /// does.
    pub fn namespace_binding(&self, h: NSInfoItem) -> (r: Result<&NSData, StoreError>)
        ensures
            r is Ok <==> self@.namespace_ok(h),
            r matches Ok(d) ==> self@.namespaces[h.index()] == Slot::Filled(*d),
    {
        if h.sid == self.sid && h.idx < self.namespaces.len() {
            match &self.namespaces[h.idx] {
                Slot::Filled(d) => Ok(d),
                _ => Err(StoreError::InvalidPointer),
            }
        } else {
            Err(StoreError::InvalidPointer)
        }
    }
}

} // verus!

verus! {

impl InfoSetData {
    /// Record which document handle a finished parse produced.
    pub fn set_doc_info_item(&mut self, v: Option<DocInfoItem>)
        ensures
            final(self)@ == (StoreV { doc_info_item: v, ..old(self)@ }),
    {
        self.doc_info_item = v;
        proof {
            assert(self@ =~= (StoreV { doc_info_item: v, ..old(self)@ }));
        }
    }

    /// Every table's extent fits the machine's address space.
    pub proof fn lemma_table_bounds(&self)
        ensures
            self@.docs.len() <= usize::MAX,
            self@.elements.len() <= usize::MAX,
            self@.attributes.len() <= usize::MAX,
            self@.pis.len() <= usize::MAX,
            self@.uers.len() <= usize::MAX,
            self@.char_groups.len() <= usize::MAX,
            self@.comments.len() <= usize::MAX,
            self@.dtds.len() <= usize::MAX,
            self@.unparsed_entities.len() <= usize::MAX,
            self@.notations.len() <= usize::MAX,
            self@.namespaces.len() <= usize::MAX,
    {
        broadcast use vstd::std_specs::vec::axiom_spec_len;

        assert(vstd::std_specs::vec::spec_vec_len(&self.docs) == self.docs@.len());
        assert(vstd::std_specs::vec::spec_vec_len(&self.elements) == self.elements@.len());
        assert(vstd::std_specs::vec::spec_vec_len(&self.attributes) == self.attributes@.len());
        assert(vstd::std_specs::vec::spec_vec_len(&self.pis) == self.pis@.len());
        assert(vstd::std_specs::vec::spec_vec_len(&self.uers) == self.uers@.len());
        assert(vstd::std_specs::vec::spec_vec_len(&self.char_groups) == self.char_groups@.len());
        assert(vstd::std_specs::vec::spec_vec_len(&self.comments) == self.comments@.len());
        assert(vstd::std_specs::vec::spec_vec_len(&self.dtds) == self.dtds@.len());
        assert(vstd::std_specs::vec::spec_vec_len(&self.unparsed_entities)
            == self.unparsed_entities@.len());
        assert(vstd::std_specs::vec::spec_vec_len(&self.notations) == self.notations@.len());
        assert(vstd::std_specs::vec::spec_vec_len(&self.namespaces) == self.namespaces@.len());
    }

    /// The document handle recorded by a finished parse, if any.
    pub fn recorded_doc(&self) -> (r: Option<DocInfoItem>)
        ensures
            r == self@.doc_info_item,
    {
        self.doc_info_item
    }

    /// Append `child` to the child list of `parent`, preserving document
    /// order. Fails, changing nothing, when `parent` does not name an
    /// initialized element of this store.
    pub fn append_element_child(&mut self, parent: ElementInfoItem, child: ElementChildInfoItem)
        -> (r: Result<(), StoreError>)
        ensures
            r is Ok <==> old(self)@.element_ok(parent),
            r is Ok ==> final(self)@ == (StoreV {
                elements: old(self)@.elements.update(
                    parent.index(),
                    Slot::Filled(ElementView {
                        children: old(self)@.element_at(parent).children.push(child),
                        ..old(self)@.element_at(parent)
                    }),
                ),
                ..old(self)@
            }),
            r is Err ==> final(self)@ == old(self)@,
    {
        if parent.sid == self.sid && parent.idx < self.elements.len() {
            let slot = &mut self.elements[parent.idx];
            match slot {
                Slot::Filled(d) => {
                    d.children.push(child);
                    proof {
                        assert(self@ =~= (StoreV {
                            elements: old(self)@.elements.update(
                                parent.index(),
                                Slot::Filled(ElementView {
                                    children: old(self)@.element_at(parent).children.push(child),
                                    ..old(self)@.element_at(parent)
                                }),
                            ),
                            ..old(self)@
                        }));
                    }
                    Ok(())
                },
                _ => Err(StoreError::InvalidPointer),
            }
        } else {
            Err(StoreError::InvalidPointer)
        }
    }
}

impl ElementInfoItem {
    /// Insert a fully formed element node; the returned handle is usable for
    /// the lifetime of the store.
    pub fn new(
        namespace_name: Option<Span>,
        local_name: Span,
        prefix: Option<Span>,
        children: Vec<ElementChildInfoItem>,
        attributes: Vec<AttributeInfoItem>,
        namespace_attributes: Vec<AttributeInfoItem>,
        in_scope_namespaces: Vec<NSInfoItem>,
        base_uri: Option<UriSpan>,
        parent: ElementParentInfoItem,
        repo: &mut InfoSetData,
    ) -> (h: ElementInfoItem)
        ensures
            h == ElementInfoItem::mk(old(repo)@.sid, old(repo)@.elements.len() as int),
            final(repo)@ == (StoreV {
                elements: old(repo)@.elements.push(Slot::Filled(ElementView {
                    namespace_name,
                    local_name,
                    prefix,
                    children: children@,
                    attributes: attributes@,
                    namespace_attributes: namespace_attributes@,
                    in_scope_namespaces: in_scope_namespaces@,
                    base_uri,
                    parent,
                })),
                ..old(repo)@
            }),
    {
        let idx = repo.elements.len();
        repo.elements.push(Slot::Filled(ElementData {
            namespace_name,
            local_name,
            prefix,
            children,
            attributes,
            namespace_attributes,
            in_scope_namespaces,
            base_uri,
            parent,
        }));
        proof {
            assert(repo@.elements =~= old(repo)@.elements.push(Slot::Filled(ElementView {
                namespace_name,
                local_name,
                prefix,
                children: children@,
                attributes: attributes@,
                namespace_attributes: namespace_attributes@,
                in_scope_namespaces: in_scope_namespaces@,
                base_uri,
                parent,
            })));
            assert(repo@ =~= (StoreV {
                elements: repo@.elements,
                ..old(repo)@
            }));
        }
        ElementInfoItem { sid: repo.sid, idx }
    }
}

} // verus!

verus! {

impl AttributeInfoItem {
    /// Insert a fully formed attribute node; the returned handle is usable for
    /// the lifetime of the store.
    pub fn new(
        namespace_name: Option<Span>,
        local_name: Span,
        prefix: Option<Span>,
        normalized_value: CowSpan,
        specified: AttrSpecified,
        attribute_type_and_references: Option<UnknownOr<AttrTypeAndReferences>>,
        owner_element: ElementInfoItem,
        repo: &mut InfoSetData,
    ) -> (h: AttributeInfoItem)
        ensures
            h == AttributeInfoItem::mk(old(repo)@.sid, old(repo)@.attributes.len() as int),
            final(repo)@ == (StoreV {
                attributes: old(repo)@.attributes.push(Slot::Filled(AttributeData { namespace_name, local_name, prefix, normalized_value, specified, attribute_type_and_references, owner_element })),
                ..old(repo)@
            }),
    {
        let idx = repo.attributes.len();
        repo.attributes.push(Slot::Filled(AttributeData { namespace_name, local_name, prefix, normalized_value, specified, attribute_type_and_references, owner_element }));
        proof {
            assert(repo@ =~= (StoreV {
                attributes: old(repo)@.attributes.push(Slot::Filled(AttributeData { namespace_name, local_name, prefix, normalized_value, specified, attribute_type_and_references, owner_element })),
                ..old(repo)@
            }));
        }
        AttributeInfoItem { sid: repo.sid, idx }
    }
}

impl PIInfoItem {
    /// Insert a fully formed processing-instruction node; the returned handle is usable for
    /// the lifetime of the store.
    pub fn new(
        target: Span,
        content: Option<Span>,
        base_uri: Option<UriSpan>,
        notation: Option<UnknownOr<NotationInfoItem>>,
        parent: PIParentInfoItem,
        repo: &mut InfoSetData,
    ) -> (h: PIInfoItem)
        ensures
            h == PIInfoItem::mk(old(repo)@.sid, old(repo)@.pis.len() as int),
            final(repo)@ == (StoreV {
                pis: old(repo)@.pis.push(Slot::Filled(PIData { target, content, base_uri, notation, parent })),
                ..old(repo)@
            }),
    {
        let idx = repo.pis.len();
        repo.pis.push(Slot::Filled(PIData { target, content, base_uri, notation, parent }));
        proof {
            assert(repo@ =~= (StoreV {
                pis: old(repo)@.pis.push(Slot::Filled(PIData { target, content, base_uri, notation, parent })),
                ..old(repo)@
            }));
        }
        PIInfoItem { sid: repo.sid, idx }
    }
}

impl UERInfoItem {
    /// Insert a fully formed unexpanded-entity-reference node; the returned handle is usable for
    /// the lifetime of the store.
    pub fn new(
        name: Span,
        system_identifier: UnknownOr<Option<Span>>,
        public_identifier: UnknownOr<Option<Span>>,
        declaration_base_uri: UnknownOr<Option<UriSpan>>,
        parent: ElementInfoItem,
        repo: &mut InfoSetData,
    ) -> (h: UERInfoItem)
        ensures
            h == UERInfoItem::mk(old(repo)@.sid, old(repo)@.uers.len() as int),
            final(repo)@ == (StoreV {
                uers: old(repo)@.uers.push(Slot::Filled(UERData { name, system_identifier, public_identifier, declaration_base_uri, parent })),
                ..old(repo)@
            }),
    {
        let idx = repo.uers.len();
        repo.uers.push(Slot::Filled(UERData { name, system_identifier, public_identifier, declaration_base_uri, parent }));
        proof {
            assert(repo@ =~= (StoreV {
                uers: old(repo)@.uers.push(Slot::Filled(UERData { name, system_identifier, public_identifier, declaration_base_uri, parent })),
                ..old(repo)@
            }));
        }
        UERInfoItem { sid: repo.sid, idx }
    }
}

impl CharGroupInfoItem {
    /// Insert a fully formed character-group node; the returned handle is usable for
    /// the lifetime of the store.
    pub fn new(
        characters: CowSpan,
        element_content_whitespace: UnknownOr<Option<bool>>,
        parent: ElementInfoItem,
        repo: &mut InfoSetData,
    ) -> (h: CharGroupInfoItem)
        ensures
            h == CharGroupInfoItem::mk(old(repo)@.sid, old(repo)@.char_groups.len() as int),
            final(repo)@ == (StoreV {
                char_groups: old(repo)@.char_groups.push(Slot::Filled(CharGroupData { characters, element_content_whitespace, parent })),
                ..old(repo)@
            }),
    {
        let idx = repo.char_groups.len();
        repo.char_groups.push(Slot::Filled(CharGroupData { characters, element_content_whitespace, parent }));
        proof {
            assert(repo@ =~= (StoreV {
                char_groups: old(repo)@.char_groups.push(Slot::Filled(CharGroupData { characters, element_content_whitespace, parent })),
                ..old(repo)@
            }));
        }
        CharGroupInfoItem { sid: repo.sid, idx }
    }
}

impl CommentInfoItem {
    /// Insert a fully formed comment node; the returned handle is usable for
    /// the lifetime of the store.
    pub fn new(
        content: Span,
        parent: CommentParentInfoItem,
        repo: &mut InfoSetData,
    ) -> (h: CommentInfoItem)
        ensures
            h == CommentInfoItem::mk(old(repo)@.sid, old(repo)@.comments.len() as int),
            final(repo)@ == (StoreV {
                comments: old(repo)@.comments.push(Slot::Filled(CommentData { content, parent })),
                ..old(repo)@
            }),
    {
        let idx = repo.comments.len();
        repo.comments.push(Slot::Filled(CommentData { content, parent }));
        proof {
            assert(repo@ =~= (StoreV {
                comments: old(repo)@.comments.push(Slot::Filled(CommentData { content, parent })),
                ..old(repo)@
            }));
        }
        CommentInfoItem { sid: repo.sid, idx }
    }
}

impl UEInfoItem {
    /// Insert a fully formed unparsed-entity node; the returned handle is usable for
    /// the lifetime of the store.
    pub fn new(
        name: Span,
        system_identifier: Span,
        public_identifier: Option<Span>,
        declaration_base_uri: UriSpan,
        notation_name: Span,
        notation: UnknownOr<Option<NotationInfoItem>>,
        repo: &mut InfoSetData,
    ) -> (h: UEInfoItem)
        ensures
            h == UEInfoItem::mk(old(repo)@.sid, old(repo)@.unparsed_entities.len() as int),
            final(repo)@ == (StoreV {
                unparsed_entities: old(repo)@.unparsed_entities.push(Slot::Filled(UEData { name, system_identifier, public_identifier, declaration_base_uri, notation_name, notation })),
                ..old(repo)@
            }),
    {
        let idx = repo.unparsed_entities.len();
        repo.unparsed_entities.push(Slot::Filled(UEData { name, system_identifier, public_identifier, declaration_base_uri, notation_name, notation }));
        proof {
            assert(repo@ =~= (StoreV {
                unparsed_entities: old(repo)@.unparsed_entities.push(Slot::Filled(UEData { name, system_identifier, public_identifier, declaration_base_uri, notation_name, notation })),
                ..old(repo)@
            }));
        }
        UEInfoItem { sid: repo.sid, idx }
    }
}

impl NotationInfoItem {
    /// Insert a fully formed notation node; the returned handle is usable for
    /// the lifetime of the store.
    pub fn new(
        name: Span,
        system_identifier: Option<Span>,
        public_identifier: Option<Span>,
        declaration_base_uri: UriSpan,
        repo: &mut InfoSetData,
    ) -> (h: NotationInfoItem)
        ensures
            h == NotationInfoItem::mk(old(repo)@.sid, old(repo)@.notations.len() as int),
            final(repo)@ == (StoreV {
                notations: old(repo)@.notations.push(Slot::Filled(NotationData { name, system_identifier, public_identifier, declaration_base_uri })),
                ..old(repo)@
            }),
    {
        let idx = repo.notations.len();
        repo.notations.push(Slot::Filled(NotationData { name, system_identifier, public_identifier, declaration_base_uri }));
        proof {
            assert(repo@ =~= (StoreV {
                notations: old(repo)@.notations.push(Slot::Filled(NotationData { name, system_identifier, public_identifier, declaration_base_uri })),
                ..old(repo)@
            }));
        }
        NotationInfoItem { sid: repo.sid, idx }
    }
}

impl NSInfoItem {
    /// Insert a fully formed namespace-binding node; the returned handle is usable for
    /// the lifetime of the store.
    pub fn new(
        prefix: Option<Span>,
        namespace_name: Span,
        repo: &mut InfoSetData,
    ) -> (h: NSInfoItem)
        ensures
            h == NSInfoItem::mk(old(repo)@.sid, old(repo)@.namespaces.len() as int),
            final(repo)@ == (StoreV {
                namespaces: old(repo)@.namespaces.push(Slot::Filled(NSData { prefix, namespace_name })),
                ..old(repo)@
            }),
    {
        let idx = repo.namespaces.len();
        repo.namespaces.push(Slot::Filled(NSData { prefix, namespace_name }));
        proof {
            assert(repo@ =~= (StoreV {
                namespaces: old(repo)@.namespaces.push(Slot::Filled(NSData { prefix, namespace_name })),
                ..old(repo)@
            }));
        }
        NSInfoItem { sid: repo.sid, idx }
    }
}

impl DTDInfoItem {
    /// Insert a fully formed document-type-declaration node; the returned
    /// handle is usable for the lifetime of the store.
    pub fn new(
        system_identifier: Option<Span>,
        public_identifier: Option<Span>,
        children: Vec<PIInfoItem>,
        parent: DocInfoItem,
        repo: &mut InfoSetData,
    ) -> (h: DTDInfoItem)
        ensures
            h == DTDInfoItem::mk(old(repo)@.sid, old(repo)@.dtds.len() as int),
            final(repo)@ == (StoreV {
                dtds: old(repo)@.dtds.push(Slot::Filled(DTDView {
                    system_identifier,
                    public_identifier,
                    children: children@,
                    parent,
                })),
                ..old(repo)@
            }),
    {
        let idx = repo.dtds.len();
        repo.dtds.push(Slot::Filled(DTDData { system_identifier, public_identifier, children, parent }));
        proof {
            assert(repo@.dtds =~= old(repo)@.dtds.push(Slot::Filled(DTDView {
                system_identifier,
                public_identifier,
                children: children@,
                parent,
            })));
            assert(repo@ =~= (StoreV { dtds: repo@.dtds, ..old(repo)@ }));
        }
        DTDInfoItem { sid: repo.sid, idx }
    }
}

impl DocInfoItem {
    /// Reserve the document node's identity before its value is known: the
    /// slot is empty and the returned handle can already be named by other
    /// nodes (an element's parent link), but dereferencing it fails until
    /// the transition to the parsed state.
    pub fn new_not_yet_parsed(repo: &mut InfoSetData) -> (h: DocInfoItem)
        ensures
            h == DocInfoItem::mk(old(repo)@.sid, old(repo)@.docs.len() as int),
            final(repo)@ == (StoreV { docs: old(repo)@.docs.push(Slot::Reserved), ..old(repo)@ }),
    {
        let idx = repo.docs.len();
        repo.docs.push(Slot::Reserved);
        proof {
            assert(repo@.docs =~= old(repo)@.docs.push(Slot::Reserved));
            assert(repo@ =~= (StoreV { docs: repo@.docs, ..old(repo)@ }));
        }
        DocInfoItem { sid: repo.sid, idx }
    }

    /// Write the document's value into its reserved slot, exactly once and
    /// atomically: every field is supplied together. Fails, changing
    /// nothing, unless this handle names a still-reserved document slot of
    /// this store — so a second transition is an error, not an overwrite.
    pub fn transition_to_parsed_from_not_yet_parsed(
        self,
        value: DocData,
        repo: &mut InfoSetData,
    ) -> (r: Result<(), StoreError>)
        ensures
            r is Ok <==> old(repo)@.doc_reserved(self),
            r is Ok ==> final(repo)@ == (StoreV {
                docs: old(repo)@.docs.update(self.index(), Slot::Filled(value@)),
                ..old(repo)@
            }),
            r is Err ==> final(repo)@ == old(repo)@,
    {
        if self.sid == repo.sid && self.idx < repo.docs.len() {
            let slot = &mut repo.docs[self.idx];
            if matches!(slot, Slot::Reserved) {
                *slot = Slot::Filled(value);
                proof {
                    assert(repo@ =~= (StoreV {
                        docs: old(repo)@.docs.update(self.index(), Slot::Filled(value@)),
                        ..old(repo)@
                    }));
                }
                Ok(())
            } else {
                proof {
                    assert(repo@ =~= old(repo)@);
                }
                Err(StoreError::InvalidPointer)
            }
        } else {
            Err(StoreError::InvalidPointer)
        }
    }
}
impl DocInfoItem {

    /// The document's XML version. The handle must name the parsed document of `repo`.
    pub fn version(self, repo: &InfoSetData) -> (r: Version)
        requires
            repo@.doc_ok(self),
        ensures
            r@ == repo@.doc_at(self).version,
    {
        match &repo.docs[self.idx] {
            Slot::Filled(d) => d.version.clone(),
            _ => vstd::pervasive::unreached(),
        }
    }

    /// The document's character encoding scheme, if one was declared. The handle must name the parsed document of `repo`.
    pub fn character_encoding_scheme(self, repo: &InfoSetData) -> (r: Option<EncodingScheme>)
        requires
            repo@.doc_ok(self),
        ensures
            opt_encoding_view(r) == repo@.doc_at(self).character_encoding_scheme,
    {
        match &repo.docs[self.idx] {
            Slot::Filled(d) => match &d.character_encoding_scheme {
                Option::Some(e) => Option::Some(e.clone()),
                Option::None => Option::None,
            },
            _ => vstd::pervasive::unreached(),
        }
    }

    /// The declaration's standalone flag, if one was declared. The handle must name the parsed document of `repo`.
    pub fn standalone(self, repo: &InfoSetData) -> (r: Option<bool>)
        requires
            repo@.doc_ok(self),
        ensures
            r == repo@.doc_at(self).standalone,
    {
        match &repo.docs[self.idx] {
            Slot::Filled(d) => d.standalone,
            _ => vstd::pervasive::unreached(),
        }
    }

    /// The document's one root element. The handle must name the parsed document of `repo`.
    pub fn document_element(self, repo: &InfoSetData) -> (r: ElementInfoItem)
        requires
            repo@.doc_ok(self),
        ensures
            r == repo@.doc_at(self).document_element,
    {
        match &repo.docs[self.idx] {
            Slot::Filled(d) => d.document_element,
            _ => vstd::pervasive::unreached(),
        }
    }

    /// The document's base URI, if known. The handle must name the parsed document of `repo`.
    pub fn base_uri(self, repo: &InfoSetData) -> (r: Option<UriSpan>)
        requires
            repo@.doc_ok(self),
        ensures
            r == repo@.doc_at(self).base_uri,
    {
        match &repo.docs[self.idx] {
            Slot::Filled(d) => d.base_uri,
            _ => vstd::pervasive::unreached(),
        }
    }

    /// Whether every declaration was processed. The handle must name the parsed document of `repo`.
    pub fn all_declarations_processed(self, repo: &InfoSetData) -> (r: bool)
        requires
            repo@.doc_ok(self),
        ensures
            r == repo@.doc_at(self).all_declarations_processed,
    {
        match &repo.docs[self.idx] {
            Slot::Filled(d) => d.all_declarations_processed,
            _ => vstd::pervasive::unreached(),
        }
    }

    /// The document's children, in document order. The handle must name the parsed document of `repo`.
    pub fn children<'a>(self, repo: &'a InfoSetData) -> (r: &'a Vec<DocChildInfoItem>)
        requires
            repo@.doc_ok(self),
        ensures
            r@ == repo@.doc_at(self).children,
    {
        match &repo.docs[self.idx] {
            Slot::Filled(d) => &d.children,
            _ => vstd::pervasive::unreached(),
        }
    }

    /// The document's notation list, if one was built. The handle must name the parsed document of `repo`.
    pub fn notations<'a>(self, repo: &'a InfoSetData) -> (r: &'a Option<Vec<NotationInfoItem>>)
        requires
            repo@.doc_ok(self),
        ensures
            opt_seq_view(*r) == repo@.doc_at(self).notations,
    {
        match &repo.docs[self.idx] {
            Slot::Filled(d) => &d.notations,
            _ => vstd::pervasive::unreached(),
        }
    }

    /// The document's unparsed entities. The handle must name the parsed document of `repo`.
    pub fn unparsed_entities<'a>(self, repo: &'a InfoSetData) -> (r: &'a Vec<UEInfoItem>)
        requires
            repo@.doc_ok(self),
        ensures
            r@ == repo@.doc_at(self).unparsed_entities,
    {
        match &repo.docs[self.idx] {
            Slot::Filled(d) => &d.unparsed_entities,
            _ => vstd::pervasive::unreached(),
        }
    }

    /// Replace the document's XML version. The handle must name the parsed document of `repo`.
    pub fn set_version(self, value: Version, repo: &mut InfoSetData)
        requires
            old(repo)@.doc_ok(self),
        ensures
            final(repo)@ == (StoreV {
                docs: old(repo)@.docs.update(
                    self.index(),
                    Slot::Filled(DocView { version: value@, ..old(repo)@.doc_at(self) }),
                ),
                ..old(repo)@
            }),
    {
        let slot = &mut repo.docs[self.idx];
        match slot {
            Slot::Filled(d) => {
                d.version = value;
            },
            _ => vstd::pervasive::unreached(),
        }
        proof {
            assert(repo@ =~= (StoreV {
                docs: old(repo)@.docs.update(
                    self.index(),
                    Slot::Filled(DocView { version: value@, ..old(repo)@.doc_at(self) }),
                ),
                ..old(repo)@
            }));
        }
    }

    /// Replace the document's character encoding scheme. The handle must name the parsed document of `repo`.
    pub fn set_character_encoding_scheme(self, value: Option<EncodingScheme>, repo: &mut InfoSetData)
        requires
            old(repo)@.doc_ok(self),
        ensures
            final(repo)@ == (StoreV {
                docs: old(repo)@.docs.update(
                    self.index(),
                    Slot::Filled(DocView { character_encoding_scheme: opt_encoding_view(value), ..old(repo)@.doc_at(self) }),
                ),
                ..old(repo)@
            }),
    {
        let slot = &mut repo.docs[self.idx];
        match slot {
            Slot::Filled(d) => {
                d.character_encoding_scheme = value;
            },
            _ => vstd::pervasive::unreached(),
        }
        proof {
            assert(repo@ =~= (StoreV {
                docs: old(repo)@.docs.update(
                    self.index(),
                    Slot::Filled(DocView { character_encoding_scheme: opt_encoding_view(value), ..old(repo)@.doc_at(self) }),
                ),
                ..old(repo)@
            }));
        }
    }

    /// Replace the declaration's standalone flag. The handle must name the parsed document of `repo`.
    pub fn set_standalone(self, value: Option<bool>, repo: &mut InfoSetData)
        requires
            old(repo)@.doc_ok(self),
        ensures
            final(repo)@ == (StoreV {
                docs: old(repo)@.docs.update(
                    self.index(),
                    Slot::Filled(DocView { standalone: value, ..old(repo)@.doc_at(self) }),
                ),
                ..old(repo)@
            }),
    {
        let slot = &mut repo.docs[self.idx];
        match slot {
            Slot::Filled(d) => {
                d.standalone = value;
            },
            _ => vstd::pervasive::unreached(),
        }
        proof {
            assert(repo@ =~= (StoreV {
                docs: old(repo)@.docs.update(
                    self.index(),
                    Slot::Filled(DocView { standalone: value, ..old(repo)@.doc_at(self) }),
                ),
                ..old(repo)@
            }));
        }
    }

    /// Replace the document's root element handle. The handle must name the parsed document of `repo`.
    pub fn set_document_element(self, value: ElementInfoItem, repo: &mut InfoSetData)
        requires
            old(repo)@.doc_ok(self),
        ensures
            final(repo)@ == (StoreV {
                docs: old(repo)@.docs.update(
                    self.index(),
                    Slot::Filled(DocView { document_element: value, ..old(repo)@.doc_at(self) }),
                ),
                ..old(repo)@
            }),
    {
        let slot = &mut repo.docs[self.idx];
        match slot {
            Slot::Filled(d) => {
                d.document_element = value;
            },
            _ => vstd::pervasive::unreached(),
        }
        proof {
            assert(repo@ =~= (StoreV {
                docs: old(repo)@.docs.update(
                    self.index(),
                    Slot::Filled(DocView { document_element: value, ..old(repo)@.doc_at(self) }),
                ),
                ..old(repo)@
            }));
        }
    }

    /// Replace the document's child list. The handle must name the parsed document of `repo`.
    pub fn set_children(self, value: Vec<DocChildInfoItem>, repo: &mut InfoSetData)
        requires
            old(repo)@.doc_ok(self),
        ensures
            final(repo)@ == (StoreV {
                docs: old(repo)@.docs.update(
                    self.index(),
                    Slot::Filled(DocView { children: value@, ..old(repo)@.doc_at(self) }),
                ),
                ..old(repo)@
            }),
    {
        let slot = &mut repo.docs[self.idx];
        match slot {
            Slot::Filled(d) => {
                d.children = value;
            },
            _ => vstd::pervasive::unreached(),
        }
        proof {
            assert(repo@ =~= (StoreV {
                docs: old(repo)@.docs.update(
                    self.index(),
                    Slot::Filled(DocView { children: value@, ..old(repo)@.doc_at(self) }),
                ),
                ..old(repo)@
            }));
        }
    }

    /// Replace the document's notation list. The handle must name the parsed document of `repo`.
    pub fn set_notations(self, value: Option<Vec<NotationInfoItem>>, repo: &mut InfoSetData)
        requires
            old(repo)@.doc_ok(self),
        ensures
            final(repo)@ == (StoreV {
                docs: old(repo)@.docs.update(
                    self.index(),
                    Slot::Filled(DocView { notations: opt_seq_view(value), ..old(repo)@.doc_at(self) }),
                ),
                ..old(repo)@
            }),
    {
        let slot = &mut repo.docs[self.idx];
        match slot {
            Slot::Filled(d) => {
                d.notations = value;
            },
            _ => vstd::pervasive::unreached(),
        }
        proof {
            assert(repo@ =~= (StoreV {
                docs: old(repo)@.docs.update(
                    self.index(),
                    Slot::Filled(DocView { notations: opt_seq_view(value), ..old(repo)@.doc_at(self) }),
                ),
                ..old(repo)@
            }));
        }
    }

    /// Replace the document's unparsed-entity list. The handle must name the parsed document of `repo`.
    pub fn set_unparsed_entities(self, value: Vec<UEInfoItem>, repo: &mut InfoSetData)
        requires
            old(repo)@.doc_ok(self),
        ensures
            final(repo)@ == (StoreV {
                docs: old(repo)@.docs.update(
                    self.index(),
                    Slot::Filled(DocView { unparsed_entities: value@, ..old(repo)@.doc_at(self) }),
                ),
                ..old(repo)@
            }),
    {
        let slot = &mut repo.docs[self.idx];
        match slot {
            Slot::Filled(d) => {
                d.unparsed_entities = value;
            },
            _ => vstd::pervasive::unreached(),
        }
        proof {
            assert(repo@ =~= (StoreV {
                docs: old(repo)@.docs.update(
                    self.index(),
                    Slot::Filled(DocView { unparsed_entities: value@, ..old(repo)@.doc_at(self) }),
                ),
                ..old(repo)@
            }));
        }
    }

    /// Replace the document's base URI. The handle must name the parsed document of `repo`.
    pub fn set_base_uri(self, value: Option<UriSpan>, repo: &mut InfoSetData)
        requires
            old(repo)@.doc_ok(self),
        ensures
            final(repo)@ == (StoreV {
                docs: old(repo)@.docs.update(
                    self.index(),
                    Slot::Filled(DocView { base_uri: value, ..old(repo)@.doc_at(self) }),
                ),
                ..old(repo)@
            }),
    {
        let slot = &mut repo.docs[self.idx];
        match slot {
            Slot::Filled(d) => {
                d.base_uri = value;
            },
            _ => vstd::pervasive::unreached(),
        }
        proof {
            assert(repo@ =~= (StoreV {
                docs: old(repo)@.docs.update(
                    self.index(),
                    Slot::Filled(DocView { base_uri: value, ..old(repo)@.doc_at(self) }),
                ),
                ..old(repo)@
            }));
        }
    }

    /// Replace the all-declarations-processed flag. The handle must name the parsed document of `repo`.
    pub fn set_all_declarations_processed(self, value: bool, repo: &mut InfoSetData)
        requires
            old(repo)@.doc_ok(self),
        ensures
            final(repo)@ == (StoreV {
                docs: old(repo)@.docs.update(
                    self.index(),
                    Slot::Filled(DocView { all_declarations_processed: value, ..old(repo)@.doc_at(self) }),
                ),
                ..old(repo)@
            }),
    {
        let slot = &mut repo.docs[self.idx];
        match slot {
            Slot::Filled(d) => {
                d.all_declarations_processed = value;
            },
            _ => vstd::pervasive::unreached(),
        }
        proof {
            assert(repo@ =~= (StoreV {
                docs: old(repo)@.docs.update(
                    self.index(),
                    Slot::Filled(DocView { all_declarations_processed: value, ..old(repo)@.doc_at(self) }),
                ),
                ..old(repo)@
            }));
        }
    }

    /// Borrow the document's child list for in-place change. The handle must name the parsed document of `repo`; the
    /// store's final state holds whatever the caller leaves behind the
    /// returned reference.
    pub fn children_mut<'a>(self, repo: &'a mut InfoSetData) -> (r: &'a mut Vec<DocChildInfoItem>)
        requires
            old(repo)@.doc_ok(self),
        ensures
            (*r)@ == old(repo)@.doc_at(self).children,
            final(repo)@ =~= (StoreV {
                docs: old(repo)@.docs.update(
                    self.index(),
                    Slot::Filled(DocView { children: (*final(r))@, ..old(repo)@.doc_at(self) }),
                ),
                ..old(repo)@
            }),
    {
        let slot = &mut repo.docs[self.idx];
        match slot {
            Slot::Filled(d) => &mut d.children,
            _ => vstd::pervasive::unreached(),
        }
    }

    /// Borrow the document's notation list for in-place change. The handle must name the parsed document of `repo`; the
    /// store's final state holds whatever the caller leaves behind the
    /// returned reference.
    pub fn notations_mut<'a>(self, repo: &'a mut InfoSetData) -> (r: &'a mut Option<Vec<NotationInfoItem>>)
        requires
            old(repo)@.doc_ok(self),
        ensures
            opt_seq_view(*r) == old(repo)@.doc_at(self).notations,
            final(repo)@ =~= (StoreV {
                docs: old(repo)@.docs.update(
                    self.index(),
                    Slot::Filled(DocView { notations: opt_seq_view(*final(r)), ..old(repo)@.doc_at(self) }),
                ),
                ..old(repo)@
            }),
    {
        let slot = &mut repo.docs[self.idx];
        match slot {
            Slot::Filled(d) => &mut d.notations,
            _ => vstd::pervasive::unreached(),
        }
    }

    /// Borrow the document's unparsed-entity list for in-place change. The handle must name the parsed document of `repo`; the
    /// store's final state holds whatever the caller leaves behind the
    /// returned reference.
    pub fn unparsed_entities_mut<'a>(self, repo: &'a mut InfoSetData) -> (r: &'a mut Vec<UEInfoItem>)
        requires
            old(repo)@.doc_ok(self),
        ensures
            (*r)@ == old(repo)@.doc_at(self).unparsed_entities,
            final(repo)@ =~= (StoreV {
                docs: old(repo)@.docs.update(
                    self.index(),
                    Slot::Filled(DocView { unparsed_entities: (*final(r))@, ..old(repo)@.doc_at(self) }),
                ),
                ..old(repo)@
            }),
    {
        let slot = &mut repo.docs[self.idx];
        match slot {
            Slot::Filled(d) => &mut d.unparsed_entities,
            _ => vstd::pervasive::unreached(),
        }
    }

}

} // verus!

verus! {

/// `post` is `pre` with every slot from `mark` on discarded and every slot
/// before `mark` untouched: the observable store state at these indices is
/// exactly the pre-transaction state, and no discarded index is ever
/// reusable.
pub open spec fn rolled_back<T>(pre: Seq<Slot<T>>, post: Seq<Slot<T>>, mark: int) -> bool {
    &&& post.len() == pre.len()
    &&& forall|i: int| 0 <= i < pre.len() && i < mark ==> post[i] == pre[i]
    &&& forall|i: int| mark <= i < pre.len() ==> post[i] is Discarded
}

/// No document slot from `mark` on is still a reservation awaiting its
/// value.
pub open spec fn no_open_reservations(docs: Seq<Slot<DocView>>, mark: int) -> bool {
    forall|i: int| mark <= i < docs.len() ==> !(docs[i] is Reserved)
}

/// Discard every slot of `v` from `mark` on, leaving earlier slots as they
/// are.
fn discard_from<T>(v: &mut Vec<Slot<T>>, mark: usize)
    ensures
        final(v)@.len() == old(v)@.len(),
        forall|i: int| 0 <= i < old(v)@.len() && i < mark ==> final(v)@[i] == old(v)@[i],
        forall|i: int| mark <= i < old(v)@.len() ==> final(v)@[i] is Discarded,
{
    let mut i: usize = mark;
    while i < v.len()
        invariant
            mark <= i,
            v@.len() == old(v)@.len(),
            forall|j: int| 0 <= j < v@.len() && j < mark ==> v@[j] == old(v)@[j],
            forall|j: int| mark <= j < i && j < v@.len() ==> v@[j] is Discarded,
        decreases v@.len() - i,
    {
        v[i] = Slot::Discarded;
        i = i + 1;
    }
}

/// A scoped unit of construction work against one store.
///
/// Beginning a transaction marks the store's current extent. Every insert
/// and reservation made afterwards sits above the mark; committing keeps
/// them (and fails if a document reservation was never initialized), and
/// rolling back discards every slot above the mark, returning the store's
/// observable state to exactly what it was when the transaction began.
pub struct Transaction {
    sid: u64,
    docs_len: usize,
    elements_len: usize,
    attributes_len: usize,
    pis_len: usize,
    uers_len: usize,
    char_groups_len: usize,
    comments_len: usize,
    dtds_len: usize,
    unparsed_entities_len: usize,
    notations_len: usize,
    namespaces_len: usize,
}

impl Transaction {
    /// The identity of the store this transaction belongs to.
    pub closed spec fn store_id(self) -> u64 {
        self.sid
    }

    /// The document-table extent when the transaction began.
    pub closed spec fn docs_mark(self) -> int {
        self.docs_len as int
    }

    /// The element-table extent when the transaction began.
    pub closed spec fn elements_mark(self) -> int {
        self.elements_len as int
    }

    /// The attribute-table extent when the transaction began.
    pub closed spec fn attributes_mark(self) -> int {
        self.attributes_len as int
    }

    /// The processing-instruction-table extent when the transaction began.
    pub closed spec fn pis_mark(self) -> int {
        self.pis_len as int
    }

    /// The unexpanded-entity-reference-table extent at the beginning.
    pub closed spec fn uers_mark(self) -> int {
        self.uers_len as int
    }

    /// The character-group-table extent when the transaction began.
    pub closed spec fn char_groups_mark(self) -> int {
        self.char_groups_len as int
    }

    /// The comment-table extent when the transaction began.
    pub closed spec fn comments_mark(self) -> int {
        self.comments_len as int
    }

    /// The document-type-declaration-table extent at the beginning.
    pub closed spec fn dtds_mark(self) -> int {
        self.dtds_len as int
    }

    /// The unparsed-entity-table extent when the transaction began.
    pub closed spec fn unparsed_entities_mark(self) -> int {
        self.unparsed_entities_len as int
    }

    /// The notation-table extent when the transaction began.
    pub closed spec fn notations_mark(self) -> int {
        self.notations_len as int
    }

    /// The namespace-binding-table extent when the transaction began.
    pub closed spec fn namespaces_mark(self) -> int {
        self.namespaces_len as int
    }

    /// Every slot of every table above this transaction's marks is
    /// discarded in `post`, and everything at or below the marks is exactly
    /// as in `pre`.
    pub open spec fn rolls_back(self, pre: StoreV, post: StoreV) -> bool {
        &&& post.sid == pre.sid
        &&& post.doc_info_item == pre.doc_info_item
        &&& rolled_back(pre.docs, post.docs, self.docs_mark())
        &&& rolled_back(pre.elements, post.elements, self.elements_mark())
        &&& rolled_back(pre.attributes, post.attributes, self.attributes_mark())
        &&& rolled_back(pre.pis, post.pis, self.pis_mark())
        &&& rolled_back(pre.uers, post.uers, self.uers_mark())
        &&& rolled_back(pre.char_groups, post.char_groups, self.char_groups_mark())
        &&& rolled_back(pre.comments, post.comments, self.comments_mark())
        &&& rolled_back(pre.dtds, post.dtds, self.dtds_mark())
        &&& rolled_back(pre.unparsed_entities, post.unparsed_entities,
            self.unparsed_entities_mark())
        &&& rolled_back(pre.notations, post.notations, self.notations_mark())
        &&& rolled_back(pre.namespaces, post.namespaces, self.namespaces_mark())
    }

    /// Open a transaction on `repo`, marking its current extent.
    pub fn begin(repo: &InfoSetData) -> (t: Transaction)
        ensures
            t.store_id() == repo@.sid,
            t.docs_mark() == repo@.docs.len(),
            t.elements_mark() == repo@.elements.len(),
            t.attributes_mark() == repo@.attributes.len(),
            t.pis_mark() == repo@.pis.len(),
            t.uers_mark() == repo@.uers.len(),
            t.char_groups_mark() == repo@.char_groups.len(),
            t.comments_mark() == repo@.comments.len(),
            t.dtds_mark() == repo@.dtds.len(),
            t.unparsed_entities_mark() == repo@.unparsed_entities.len(),
            t.notations_mark() == repo@.notations.len(),
            t.namespaces_mark() == repo@.namespaces.len(),
    {
        Transaction {
            sid: repo.sid,
            docs_len: repo.docs.len(),
            elements_len: repo.elements.len(),
            attributes_len: repo.attributes.len(),
            pis_len: repo.pis.len(),
            uers_len: repo.uers.len(),
            char_groups_len: repo.char_groups.len(),
            comments_len: repo.comments.len(),
            dtds_len: repo.dtds.len(),
            unparsed_entities_len: repo.unparsed_entities.len(),
            notations_len: repo.notations.len(),
            namespaces_len: repo.namespaces.len(),
        }
    }

    /// Discard every slot above this transaction's marks.
    fn wipe(&self, repo: &mut InfoSetData)
        ensures
            self.rolls_back(old(repo)@, final(repo)@),
    {
        discard_from(&mut repo.docs, self.docs_len);
        discard_from(&mut repo.elements, self.elements_len);
        discard_from(&mut repo.attributes, self.attributes_len);
        discard_from(&mut repo.pis, self.pis_len);
        discard_from(&mut repo.uers, self.uers_len);
        discard_from(&mut repo.char_groups, self.char_groups_len);
        discard_from(&mut repo.comments, self.comments_len);
        discard_from(&mut repo.dtds, self.dtds_len);
        discard_from(&mut repo.unparsed_entities, self.unparsed_entities_len);
        discard_from(&mut repo.notations, self.notations_len);
        discard_from(&mut repo.namespaces, self.namespaces_len);
        proof {
            assert forall|i: int|
                0 <= i < old(repo)@.docs.len() && i < self.docs_mark() implies repo@.docs[i]
                == old(repo)@.docs[i] by {}
            assert forall|i: int|
                self.docs_mark() <= i < old(repo)@.docs.len() implies repo@.docs[i]
                is Discarded by {}
            assert forall|i: int|
                0 <= i < old(repo)@.elements.len() && i < self.elements_mark() implies repo@
                .elements[i] == old(repo)@.elements[i] by {}
            assert forall|i: int|
                self.elements_mark() <= i < old(repo)@.elements.len() implies repo@.elements[i]
                is Discarded by {}
            assert forall|i: int|
                0 <= i < old(repo)@.dtds.len() && i < self.dtds_mark() implies repo@.dtds[i]
                == old(repo)@.dtds[i] by {}
            assert forall|i: int|
                self.dtds_mark() <= i < old(repo)@.dtds.len() implies repo@.dtds[i]
                is Discarded by {}
        }
    }

    /// Close the transaction, keeping its effects. If a document slot
    /// reserved above the mark was never initialized, the whole transaction
    /// is discarded instead — the store returns to its pre-transaction
    /// state — and an error is returned. A transaction presented to a store
    /// it does not belong to fails without changing anything.
    pub fn commit(self, repo: &mut InfoSetData) -> (r: Result<(), StoreError>)
        ensures
            self.store_id() != old(repo)@.sid ==> r is Err && final(repo)@ == old(repo)@,
            self.store_id() == old(repo)@.sid && no_open_reservations(
                old(repo)@.docs,
                self.docs_mark(),
            ) ==> r is Ok && final(repo)@ == old(repo)@,
            self.store_id() == old(repo)@.sid && !no_open_reservations(
                old(repo)@.docs,
                self.docs_mark(),
            ) ==> r is Err && self.rolls_back(old(repo)@, final(repo)@),
    {
        if self.sid != repo.sid {
            return Err(StoreError::InvalidPointer);
        }
        let mut i: usize = self.docs_len;
        let mut open_found: bool = false;
        while i < repo.docs.len()
            invariant
                self.docs_mark() <= i,
                repo@ == old(repo)@,
                !open_found ==> forall|j: int|
                    self.docs_mark() <= j < i && j < repo@.docs.len() ==> !(repo@.docs[j]
                        is Reserved),
                open_found ==> !no_open_reservations(repo@.docs, self.docs_mark()),
            ensures
                repo@ == old(repo)@,
                open_found <==> !no_open_reservations(repo@.docs, self.docs_mark()),
            decreases repo@.docs.len() - i,
        {
            if matches!(&repo.docs[i], Slot::Reserved) {
                open_found = true;
                proof {
                    assert(!no_open_reservations(repo@.docs, self.docs_mark())) by {
                        assert(repo@.docs[i as int] is Reserved);
                    }
                }
                break;
            }
            i = i + 1;
        }
        if open_found {
            self.wipe(repo);
            Err(StoreError::InvalidPointer)
        } else {
            Ok(())
        }
    }

    /// Abandon the transaction: every slot handed out above the mark is
    /// discarded and the store's observable state returns to exactly what
    /// it was when the transaction began. A transaction presented to a
    /// store it does not belong to fails without changing anything.
    pub fn rollback(self, repo: &mut InfoSetData) -> (r: Result<(), StoreError>)
        ensures
            self.store_id() != old(repo)@.sid ==> r is Err && final(repo)@ == old(repo)@,
            self.store_id() == old(repo)@.sid ==> r is Ok && self.rolls_back(
                old(repo)@,
                final(repo)@,
            ),
    {
        if self.sid != repo.sid {
            return Err(StoreError::InvalidPointer);
        }
        self.wipe(repo);
        Ok(())
    }
}

} // verus!

verus! {

/// `post` holds every slot of `pre` unchanged and only discarded slots
/// beyond them: the observable state — what any pre-existing handle
/// resolves to, and the failure of every newer one — is exactly that of
/// `pre`, and the discarded indices can never be handed out again.
pub open spec fn table_restored<T>(pre: Seq<Slot<T>>, post: Seq<Slot<T>>) -> bool {
    &&& post.len() >= pre.len()
    &&& forall|i: int| 0 <= i < pre.len() ==> post[i] == pre[i]
    &&& forall|i: int| pre.len() <= i < post.len() ==> post[i] is Discarded
}

/// The observable store state of `post` is exactly that of `pre`: see
/// [`table_restored`].
pub open spec fn store_restored(pre: StoreV, post: StoreV) -> bool {
    &&& post.sid == pre.sid
    &&& post.doc_info_item == pre.doc_info_item
    &&& table_restored(pre.docs, post.docs)
    &&& table_restored(pre.elements, post.elements)
    &&& table_restored(pre.attributes, post.attributes)
    &&& table_restored(pre.pis, post.pis)
    &&& table_restored(pre.uers, post.uers)
    &&& table_restored(pre.char_groups, post.char_groups)
    &&& table_restored(pre.comments, post.comments)
    &&& table_restored(pre.dtds, post.dtds)
    &&& table_restored(pre.unparsed_entities, post.unparsed_entities)
    &&& table_restored(pre.notations, post.notations)
    &&& table_restored(pre.namespaces, post.namespaces)
}

} // verus!

verus! {

// ---------------------------------------------------------------------------
// Well-formedness of the spans a store holds: every span field present in
// any initialized node denotes a substring of one retained input buffer.
// ---------------------------------------------------------------------------

/// Whether an optional span, if present, denotes a substring of the input.
pub open spec fn opt_span_wf(input: Seq<u8>, o: Option<Span>) -> bool {
    o matches Some(s) ==> crate::span_valid(input, s)
}

/// Whether an optional URI span, if present, denotes a substring.
pub open spec fn opt_uri_wf(input: Seq<u8>, o: Option<UriSpan>) -> bool {
    o matches Some(u) ==> crate::span_valid(input, u.0)
}

/// Whether a possibly-owned span, when borrowed, denotes a substring.
pub open spec fn cow_span_wf(input: Seq<u8>, c: CowSpan) -> bool {
    c matches CowSpan::Borrowed(s) ==> crate::span_valid(input, s)
}

impl DocView {
    /// Every span field present denotes a substring of the input.
    pub open spec fn spans_wf(self, input: Seq<u8>) -> bool {
        opt_uri_wf(input, self.base_uri)
    }
}

impl ElementView {
    /// Every span field present denotes a substring of the input.
    pub open spec fn spans_wf(self, input: Seq<u8>) -> bool {
        &&& opt_span_wf(input, self.namespace_name)
        &&& crate::span_valid(input, self.local_name)
        &&& opt_span_wf(input, self.prefix)
        &&& opt_uri_wf(input, self.base_uri)
    }
}

impl AttributeData {
    /// Every span field present denotes a substring of the input.
    pub open spec fn spans_wf(self, input: Seq<u8>) -> bool {
        &&& opt_span_wf(input, self.namespace_name)
        &&& crate::span_valid(input, self.local_name)
        &&& opt_span_wf(input, self.prefix)
        &&& cow_span_wf(input, self.normalized_value)
    }
}

impl PIData {
    /// Every span field present denotes a substring of the input.
    pub open spec fn spans_wf(self, input: Seq<u8>) -> bool {
        &&& crate::span_valid(input, self.target)
        &&& opt_span_wf(input, self.content)
        &&& opt_uri_wf(input, self.base_uri)
    }
}

/// Whether a span under an `UnknownOr<Option<..>>` wrapper, if known and
/// present, denotes a substring of the input.
pub open spec fn unknown_opt_span_wf(input: Seq<u8>, o: UnknownOr<Option<Span>>) -> bool {
    o matches UnknownOr::Known(k) ==> opt_span_wf(input, k)
}

impl UERData {
    /// Every span field present denotes a substring of the input.
    pub open spec fn spans_wf(self, input: Seq<u8>) -> bool {
        &&& crate::span_valid(input, self.name)
        &&& unknown_opt_span_wf(input, self.system_identifier)
        &&& unknown_opt_span_wf(input, self.public_identifier)
        &&& (self.declaration_base_uri matches UnknownOr::Known(k) ==> opt_uri_wf(input, k))
    }
}

impl CharGroupData {
    /// Every span field present denotes a substring of the input.
    pub open spec fn spans_wf(self, input: Seq<u8>) -> bool {
        cow_span_wf(input, self.characters)
    }
}

impl CommentData {
    /// Every span field present denotes a substring of the input.
    pub open spec fn spans_wf(self, input: Seq<u8>) -> bool {
        crate::span_valid(input, self.content)
    }
}

impl DTDView {
    /// Every span field present denotes a substring of the input.
    pub open spec fn spans_wf(self, input: Seq<u8>) -> bool {
        &&& opt_span_wf(input, self.system_identifier)
        &&& opt_span_wf(input, self.public_identifier)
    }
}

impl UEData {
    /// Every span field present denotes a substring of the input.
    pub open spec fn spans_wf(self, input: Seq<u8>) -> bool {
        &&& crate::span_valid(input, self.name)
        &&& crate::span_valid(input, self.system_identifier)
        &&& opt_span_wf(input, self.public_identifier)
        &&& crate::span_valid(input, self.declaration_base_uri.0)
        &&& crate::span_valid(input, self.notation_name)
    }
}

impl NotationData {
    /// Every span field present denotes a substring of the input.
    pub open spec fn spans_wf(self, input: Seq<u8>) -> bool {
        &&& crate::span_valid(input, self.name)
        &&& opt_span_wf(input, self.system_identifier)
        &&& opt_span_wf(input, self.public_identifier)
        &&& crate::span_valid(input, self.declaration_base_uri.0)
    }
}

impl NSData {
    /// Every span field present denotes a substring of the input.
    pub open spec fn spans_wf(self, input: Seq<u8>) -> bool {
        &&& opt_span_wf(input, self.prefix)
        &&& crate::span_valid(input, self.namespace_name)
    }
}

impl StoreV {
    /// Every span of every initialized node of this store denotes a
    /// substring of the one input buffer `input`.
    pub open spec fn spans_wf(self, input: Seq<u8>) -> bool {
        &&& (forall|i: int|
            0 <= i < self.docs.len() && self.docs[i] is Filled ==> (
            #[trigger] self.docs[i]).value().spans_wf(input))
        &&& (forall|i: int|
            0 <= i < self.elements.len() && self.elements[i] is Filled ==> (
            #[trigger] self.elements[i]).value().spans_wf(input))
        &&& (forall|i: int|
            0 <= i < self.attributes.len() && self.attributes[i] is Filled ==> (
            #[trigger] self.attributes[i]).value().spans_wf(input))
        &&& (forall|i: int|
            0 <= i < self.pis.len() && self.pis[i] is Filled ==> (
            #[trigger] self.pis[i]).value().spans_wf(input))
        &&& (forall|i: int|
            0 <= i < self.uers.len() && self.uers[i] is Filled ==> (
            #[trigger] self.uers[i]).value().spans_wf(input))
        &&& (forall|i: int|
            0 <= i < self.char_groups.len() && self.char_groups[i] is Filled ==> (
            #[trigger] self.char_groups[i]).value().spans_wf(input))
        &&& (forall|i: int|
            0 <= i < self.comments.len() && self.comments[i] is Filled ==> (
            #[trigger] self.comments[i]).value().spans_wf(input))
        &&& (forall|i: int|
            0 <= i < self.dtds.len() && self.dtds[i] is Filled ==> (
            #[trigger] self.dtds[i]).value().spans_wf(input))
        &&& (forall|i: int|
            0 <= i < self.unparsed_entities.len() && self.unparsed_entities[i] is Filled ==> (
            #[trigger] self.unparsed_entities[i]).value().spans_wf(input))
        &&& (forall|i: int|
            0 <= i < self.notations.len() && self.notations[i] is Filled ==> (
            #[trigger] self.notations[i]).value().spans_wf(input))
        &&& (forall|i: int|
            0 <= i < self.namespaces.len() && self.namespaces[i] is Filled ==> (
            #[trigger] self.namespaces[i]).value().spans_wf(input))
    }
}

/// A handle carrying another store's identity never resolves: each
/// resolving operation reports an invalid pointer instead of aliasing an
/// unrelated node. Stated here for the two kinds a parse hands out;
/// the resolving operations' own contracts state it for every kind.
pub proof fn lemma_foreign_handle_rejected(
    b: StoreV,
    doc: DocInfoItem,
    elem: ElementInfoItem,
)
    requires
        doc.store_id() != b.sid,
        elem.store_id() != b.sid,
    ensures
        !b.doc_ok(doc),
        !b.doc_reserved(doc),
        !b.element_ok(elem),
{
}

/// After a rollback, a handle the discarded transaction created resolves to
/// nothing — neither as a node nor as a reservation — and every handle a
/// later insertion or reservation can mint differs from it, because
/// discarded indices are never reused.
pub proof fn lemma_rollback_isolation(pre: StoreV, post: StoreV, h: DocInfoItem)
    requires
        store_restored(pre, post),
        pre.docs.len() <= h.index() < post.docs.len(),
    ensures
        !post.doc_ok(h),
        !post.doc_reserved(h),
        forall|idx: int|
            post.docs.len() <= idx <= usize::MAX ==> DocInfoItem::mk(post.sid, idx) != h,
{
    assert(post.docs[h.index()] is Discarded);
    assert forall|idx: int|
        post.docs.len() <= idx <= usize::MAX implies DocInfoItem::mk(post.sid, idx) != h by {
        DocInfoItem::lemma_mk(post.sid, idx);
    }
}

} // verus!

verus! {

impl From<ElementInfoItem> for ElementChildInfoItem {
    /// An element handle, as an element child.
    fn from(v: ElementInfoItem) -> (r: ElementChildInfoItem) {
        ElementChildInfoItem::Element(v)
    }
}

impl vstd::std_specs::convert::FromSpecImpl<ElementInfoItem> for ElementChildInfoItem {
    open spec fn obeys_from_spec() -> bool {
        true
    }

    open spec fn from_spec(v: ElementInfoItem) -> ElementChildInfoItem {
        ElementChildInfoItem::Element(v)
    }
}

impl From<PIInfoItem> for ElementChildInfoItem {
    /// A processing-instruction handle, as an element child.
    fn from(v: PIInfoItem) -> (r: ElementChildInfoItem) {
        ElementChildInfoItem::PI(v)
    }
}

impl vstd::std_specs::convert::FromSpecImpl<PIInfoItem> for ElementChildInfoItem {
    open spec fn obeys_from_spec() -> bool {
        true
    }

    open spec fn from_spec(v: PIInfoItem) -> ElementChildInfoItem {
        ElementChildInfoItem::PI(v)
    }
}

impl From<CommentInfoItem> for ElementChildInfoItem {
    /// A comment handle, as an element child.
    fn from(v: CommentInfoItem) -> (r: ElementChildInfoItem) {
        ElementChildInfoItem::Comment(v)
    }
}

impl vstd::std_specs::convert::FromSpecImpl<CommentInfoItem> for ElementChildInfoItem {
    open spec fn obeys_from_spec() -> bool {
        true
    }

    open spec fn from_spec(v: CommentInfoItem) -> ElementChildInfoItem {
        ElementChildInfoItem::Comment(v)
    }
}

} // verus!
