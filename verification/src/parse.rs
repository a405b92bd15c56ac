//! The token-driven build state machine and the public parse entry points.
//!
//! Lexical tokenization is delegated to the external `xmlparser` crate. Its
//! tokens are converted, behind trusted wrappers, into plain [`RawEvent`]
//! values carrying byte spans; everything that happens after that conversion
//! — the document-level state machine, the element-subtree machine with its
//! explicit open-element stack, the attribute sub-loop, and every store
//! operation — is verified against the specification functions in this
//! module.

use vstd::prelude::*;

use crate::{InfoSet, InfoSetStatistics, Span, Version, VersionView, EncodingScheme,
    EncodingSchemeView, str_range, valid_range, span_bytes, InfoSetData, StoreV, StoreError, Slot,
    DocInfoItem, ElementInfoItem, CommentInfoItem, PIInfoItem, DocView, ElementView, CommentData,
    PIData, DocChildInfoItem, ElementChildInfoItem, ElementParentInfoItem, CommentParentInfoItem,
    PIParentInfoItem, Transaction, no_open_reservations, DocData, store_restored,
    table_restored, span_valid, span_empty};

verus! {

use vstd::string::StringSliceAdditionalSpecFns;
use vstd::utf8::decode_utf8;

/// One lexical event of the tokenizer, reduced to plain values: every piece
/// of text is a byte span into the input buffer.
#[derive(Clone, Copy, PartialEq, Eq, Structural, Debug)]
pub enum RawEvent {
    /// A leading `<?xml ...?>` declaration.
    Declaration { version: Span, encoding: Option<Span>, standalone: Option<bool> },
    /// The start of a document type declaration with an internal subset.
    DtdStart,
    /// A document type declaration without an internal subset.
    EmptyDtd,
    /// The `<name` part of an opening tag; attribute events follow.
    ElementStart { prefix: Span, local: Span },
    /// One attribute inside an opening tag.
    Attribute { prefix: Span, local: Span, value: Span },
    /// The `>` that closes an opening tag.
    ElementEndOpen,
    /// The `/>` that closes a self-closing tag.
    ElementEndEmpty,
    /// A `</name>` closing tag.
    ElementEndClose { prefix: Span, local: Span },
    /// A comment; the span covers the text between the markers.
    Comment { text: Span },
    /// A processing instruction.
    ProcessingInstruction { target: Span, content: Option<Span> },
    /// A run of character data between tags.
    Text { text: Span },
    /// A CDATA section.
    Cdata { text: Span },
    /// Any other token (entity declarations and markers inside a DTD).
    Other,
}

/// Why a parse aborted. The whole parse stops at the first error; no partial
/// graph is observable afterwards.
#[derive(Clone, Copy, Debug)]
pub enum ParseError {
    /// The tokenizer reported malformed XML syntax; surfaced verbatim.
    TokenError(xmlparser::Error),
    /// A structurally valid token appeared in a state that forbids it.
    UnexpectedToken,
    /// The stream ended while a required construct was incomplete.
    UnexpectedEOF,
    /// More than one default-namespace declaration on one element.
    DuplicateNSAttribute,
    /// More than one top-level element in one document.
    DuplicateRootElement,
    /// The construct is recognized but deliberately not yet supported (a
    /// document type declaration).
    NotSupported,
    /// A collaborator broke its interface contract (the tokenizer reported
    /// a span that does not denote a substring of the input): a defect, not
    /// malformed input.
    Internal,
}

// ---------------------------------------------------------------------------
// Trusted boundary: the external tokenizer's types, and the conversion of
// its tokens into plain events.
// ---------------------------------------------------------------------------

#[verifier::external_type_specification]
#[verifier::external_body]
pub struct ExTokenizer<'a>(xmlparser::Tokenizer<'a>);

#[verifier::external_type_specification]
#[verifier::external_body]
pub struct ExToken<'a>(xmlparser::Token<'a>);

#[verifier::external_type_specification]
#[verifier::external_body]
pub struct ExXmlError(xmlparser::Error);

/// Relies on `xmlparser::Token::Declaration` and `xmlparser::StrSpan`: the
/// declaration's version, encoding and standalone fields, with each text
/// replaced by its byte positions in the input.
#[verifier::external_body]
fn to_declaration(t: &xmlparser::Token<'_>) -> Option<RawEvent> {
    match t {
        xmlparser::Token::Declaration { version, encoding, standalone, .. } => Some(
            RawEvent::Declaration {
                version: Span { start: version.start(), end: version.end() },
                encoding: match encoding {
                    Some(e) => Some(Span { start: e.start(), end: e.end() }),
                    None => None,
                },
                standalone: *standalone,
            },
        ),
        _ => None,
    }
}

/// Relies on `xmlparser::Token::ElementStart`: the tag name's prefix and
/// local part as byte positions in the input.
#[verifier::external_body]
fn to_element_start(t: &xmlparser::Token<'_>) -> Option<RawEvent> {
    match t {
        xmlparser::Token::ElementStart { prefix, local, .. } => Some(RawEvent::ElementStart {
            prefix: Span { start: prefix.start(), end: prefix.end() },
            local: Span { start: local.start(), end: local.end() },
        }),
        _ => None,
    }
}

/// Relies on `xmlparser::Token::Attribute`: the attribute's prefix, local
/// name and value as byte positions in the input.
#[verifier::external_body]
fn to_attribute(t: &xmlparser::Token<'_>) -> Option<RawEvent> {
    match t {
        xmlparser::Token::Attribute { prefix, local, value, .. } => Some(RawEvent::Attribute {
            prefix: Span { start: prefix.start(), end: prefix.end() },
            local: Span { start: local.start(), end: local.end() },
            value: Span { start: value.start(), end: value.end() },
        }),
        _ => None,
    }
}

/// Relies on `xmlparser::Token::ElementEnd` and its three forms: `>` after
/// an open tag, `/>` on a self-closing tag, and `</name>` with the closing
/// name's prefix and local part as byte positions in the input.
#[verifier::external_body]
fn to_element_end(t: &xmlparser::Token<'_>) -> Option<RawEvent> {
    match t {
        xmlparser::Token::ElementEnd { end: xmlparser::ElementEnd::Open, .. } => Some(
            RawEvent::ElementEndOpen,
        ),
        xmlparser::Token::ElementEnd { end: xmlparser::ElementEnd::Empty, .. } => Some(
            RawEvent::ElementEndEmpty,
        ),
        xmlparser::Token::ElementEnd { end: xmlparser::ElementEnd::Close(prefix, local), .. } =>
            Some(RawEvent::ElementEndClose {
            prefix: Span { start: prefix.start(), end: prefix.end() },
            local: Span { start: local.start(), end: local.end() },
        }),
        _ => None,
    }
}

/// Relies on `xmlparser::Token::Comment`: the comment text as byte
/// positions in the input.
#[verifier::external_body]
fn to_comment(t: &xmlparser::Token<'_>) -> Option<RawEvent> {
    match t {
        xmlparser::Token::Comment { text, .. } => Some(RawEvent::Comment {
            text: Span { start: text.start(), end: text.end() },
        }),
        _ => None,
    }
}

/// Relies on `xmlparser::Token::ProcessingInstruction`: the target and the
/// optional content as byte positions in the input.
#[verifier::external_body]
fn to_pi(t: &xmlparser::Token<'_>) -> Option<RawEvent> {
    match t {
        xmlparser::Token::ProcessingInstruction { target, content, .. } => Some(
            RawEvent::ProcessingInstruction {
                target: Span { start: target.start(), end: target.end() },
                content: match content {
                    Some(c) => Some(Span { start: c.start(), end: c.end() }),
                    None => None,
                },
            },
        ),
        _ => None,
    }
}

/// Relies on the remaining `xmlparser::Token` variants: DTD markers, text,
/// CDATA and entity declarations, with each text replaced by its byte
/// positions in the input.
#[verifier::external_body]
fn to_misc(t: &xmlparser::Token<'_>) -> Option<RawEvent> {
    match t {
        xmlparser::Token::DtdStart { .. } => Some(RawEvent::DtdStart),
        xmlparser::Token::EmptyDtd { .. } => Some(RawEvent::EmptyDtd),
        xmlparser::Token::Text { text } => Some(RawEvent::Text {
            text: Span { start: text.start(), end: text.end() },
        }),
        xmlparser::Token::Cdata { text, .. } => Some(RawEvent::Cdata {
            text: Span { start: text.start(), end: text.end() },
        }),
        xmlparser::Token::EntityDeclaration { .. } => Some(RawEvent::Other),
        xmlparser::Token::DtdEnd { .. } => Some(RawEvent::Other),
        _ => None,
    }
}

/// Reduce one token to its event. Every variant is covered by one of the
/// conversion wrappers; the fallback is never reached.
fn convert_token(t: &xmlparser::Token<'_>) -> RawEvent {
    if let Some(e) = to_declaration(t) {
        return e;
    }
    if let Some(e) = to_element_start(t) {
        return e;
    }
    if let Some(e) = to_attribute(t) {
        return e;
    }
    if let Some(e) = to_element_end(t) {
        return e;
    }
    if let Some(e) = to_comment(t) {
        return e;
    }
    if let Some(e) = to_pi(t) {
        return e;
    }
    if let Some(e) = to_misc(t) {
        return e;
    }
    RawEvent::Other
}

/// The events of `input`, as [`tokenize`] reports them: the converted
/// tokens before the first lexical error. The tokenizer reads nothing but
/// the input text, so this is a function of the input alone.
pub uninterp spec fn spec_events_of(input: Seq<u8>) -> Seq<RawEvent>;

/// Whether tokenizing `input` ends in a lexical error rather than at the
/// end of the stream; a function of the input alone, like the events.
pub uninterp spec fn spec_lex_err_of(input: Seq<u8>) -> bool;

/// Relies on `xmlparser::Tokenizer::from` and its `Iterator::next`: drain
/// the tokenizer over the whole input and convert each token. The
/// tokenizer is deterministic — construction and iteration read only the
/// input string — so the events it reports, and whether it ends in a
/// lexical error, are named functions of the input; after the first error
/// the stream yields only `None`, so the error, when present, is last.
#[verifier::external_body]
fn tokenize(input: &str) -> (r: (Vec<RawEvent>, Option<xmlparser::Error>))
    ensures
        r.0@ == spec_events_of(input.spec_bytes()),
        (r.1 is Some) == spec_lex_err_of(input.spec_bytes()),
{
    let mut tk = xmlparser::Tokenizer::from(input);
    let mut events: Vec<RawEvent> = Vec::new();
    loop {
        match tk.next() {
            None => return (events, None),
            Some(Err(e)) => return (events, Some(e)),
            Some(Ok(t)) => events.push(convert_token(&t)),
        }
    }
}

// ---------------------------------------------------------------------------
// Small lexical helpers with exact specifications.
// ---------------------------------------------------------------------------

/// The UTF-8 bytes of `xmlns`: `x m l n s`.
pub open spec fn xmlns_bytes() -> Seq<u8> {
    seq![120u8, 109u8, 108u8, 110u8, 115u8]
}

/// Whether `s` is exactly `xmlns`.
fn is_xmlns(s: &str) -> (r: bool)
    ensures
        r == (s.spec_bytes() == xmlns_bytes()),
{
    let bs = s.as_bytes();
    let r = bs.len() == 5 && bs[0] == 120u8 && bs[1] == 109u8 && bs[2] == 108u8 && bs[3] == 110u8
        && bs[4] == 115u8;
    proof {
        if r {
            assert(s.spec_bytes() =~= xmlns_bytes());
        } else {
            if s.spec_bytes() == xmlns_bytes() {
                assert(bs@.len() == 5);
                assert(bs@[0] == 120u8 && bs@[1] == 109u8 && bs@[2] == 108u8 && bs@[3] == 110u8
                    && bs@[4] == 115u8);
            }
        }
    }
    r
}

/// Whether two byte strings hold the same bytes.
fn bytes_eq(a: &[u8], b: &[u8]) -> (r: bool)
    ensures
        r == (a@ == b@),
{
    if a.len() != b.len() {
        proof {
            if a@ == b@ {
                assert(a@.len() == b@.len());
            }
        }
        return false;
    }
    let mut i: usize = 0;
    while i < a.len()
        invariant
            i <= a@.len(),
            a@.len() == b@.len(),
            forall|j: int| 0 <= j < i ==> a@[j] == b@[j],
        decreases a@.len() - i,
    {
        if a[i] != b[i] {
            return false;
        }
        i = i + 1;
    }
    proof {
        assert(a@ =~= b@);
    }
    true
}

/// The version value a declaration's version text denotes.
/// `49 46 48` and `49 46 49` are the UTF-8 bytes of `1.0` and `1.1`.
pub open spec fn spec_parse_version(bytes: Seq<u8>) -> VersionView {
    if bytes == seq![49u8, 46u8, 48u8] {
        VersionView::Version1_0
    } else if bytes == seq![49u8, 46u8, 49u8] {
        VersionView::Version1_1
    } else {
        VersionView::Other(decode_utf8(bytes))
    }
}

/// Classify a declaration's version text: the two supported versions are
/// recognized, anything else is carried verbatim.
pub fn parse_version(version: &str) -> (r: Version)
    ensures
        r@ == spec_parse_version(version.spec_bytes()),
{
    let bs = version.as_bytes();
    if bs.len() == 3 && bs[0] == 49u8 && bs[1] == 46u8 && bs[2] == 48u8 {
        proof {
            assert(version.spec_bytes() =~= seq![49u8, 46u8, 48u8]);
        }
        Version::Version1_0
    } else if bs.len() == 3 && bs[0] == 49u8 && bs[1] == 46u8 && bs[2] == 49u8 {
        proof {
            assert(version.spec_bytes() =~= seq![49u8, 46u8, 49u8]);
        }
        Version::Version1_1
    } else {
        proof {
            if version.spec_bytes() == seq![49u8, 46u8, 48u8] {
                assert(bs@.len() == 3 && bs@[0] == 49u8 && bs@[1] == 46u8 && bs@[2] == 48u8);
            }
            if version.spec_bytes() == seq![49u8, 46u8, 49u8] {
                assert(bs@.len() == 3 && bs@[0] == 49u8 && bs@[1] == 46u8 && bs@[2] == 49u8);
            }
            vstd::utf8::encode_utf8_decode_utf8(version@);
        }
        Version::Other(version.to_owned())
    }
}

/// The encoding value a declaration's encoding text denotes.
/// `85 84 70 45 56` are the UTF-8 bytes of `UTF-8`.
pub open spec fn spec_parse_encoding(bytes: Seq<u8>) -> EncodingSchemeView {
    if bytes == seq![85u8, 84u8, 70u8, 45u8, 56u8] {
        EncodingSchemeView::Utf8
    } else {
        EncodingSchemeView::Other(decode_utf8(bytes))
    }
}

/// Classify a declaration's encoding text: UTF-8 is recognized, anything
/// else is carried verbatim.
pub fn parse_encoding_scheme(encoding_scheme: &str) -> (r: EncodingScheme)
    ensures
        r@ == spec_parse_encoding(encoding_scheme.spec_bytes()),
{
    let bs = encoding_scheme.as_bytes();
    if bs.len() == 5 && bs[0] == 85u8 && bs[1] == 84u8 && bs[2] == 70u8 && bs[3] == 45u8 && bs[4]
        == 56u8 {
        proof {
            assert(encoding_scheme.spec_bytes() =~= seq![85u8, 84u8, 70u8, 45u8, 56u8]);
        }
        EncodingScheme::Utf8
    } else {
        proof {
            if encoding_scheme.spec_bytes() == seq![85u8, 84u8, 70u8, 45u8, 56u8] {
                assert(bs@.len() == 5 && bs@[0] == 85u8 && bs@[1] == 84u8 && bs@[2] == 70u8
                    && bs@[3] == 45u8 && bs@[4] == 56u8);
            }
            vstd::utf8::encode_utf8_decode_utf8(encoding_scheme@);
        }
        EncodingScheme::Other(encoding_scheme.to_owned())
    }
}

} // verus!

verus! {

// ---------------------------------------------------------------------------
// The build state machine, as one mathematical step function over events.
//
// The document-level phase tracker, the element-subtree machine with its
// open-element stack, and the attribute sub-loop are flattened into one
// mode, so that consuming the event stream is a left fold of `spec_step`.
// ---------------------------------------------------------------------------

/// One open element awaiting its closing tag: its handle and the lexical
/// name (prefix and local part) that the closing tag must repeat.
#[derive(Clone, Copy, PartialEq, Eq, Structural, Debug)]
pub struct OpenFrame {
    pub elem: ElementInfoItem,
    pub prefix: Span,
    pub local: Span,
}

/// Where the build machine stands.
#[derive(Clone, Copy, PartialEq, Eq, Structural, Debug)]
pub enum BuildMode {
    /// Document level, before any document type declaration or root element.
    AfterXmlDecl,
    /// Document level, after the document type declaration.
    AfterDTD,
    /// Document level, after the root element's subtree is complete.
    AfterRootElement,
    /// Inside the root element's subtree, expecting content.
    Content,
    /// Inside an opening tag, consuming its attribute list.
    Attrs { prefix: Span, local: Span, seen_default_ns: bool },
}

/// The whole machine state: the mode, the open-element stack, the root
/// element once seen, and the store under construction.
#[verifier::ext_equal]
pub ghost struct MachineState {
    pub mode: BuildMode,
    pub stack: Seq<OpenFrame>,
    pub root: Option<ElementInfoItem>,
    pub store: StoreV,
}

/// Append `c` to the child list of `parent`, document order preserved.
/// The machine only ever appends to an initialized element it created; on
/// any other handle this is a no-op, so the store's extents never depend
/// on a stray index.
pub open spec fn spec_append_child(
    st: StoreV,
    parent: ElementInfoItem,
    c: ElementChildInfoItem,
) -> StoreV {
    if 0 <= parent.index() < st.elements.len() {
        StoreV {
            elements: st.elements.update(
                parent.index(),
                Slot::Filled(ElementView {
                    children: st.element_at(parent).children.push(c),
                    ..st.element_at(parent)
                }),
            ),
            ..st
        }
    } else {
        st
    }
}

/// Finish an opening tag once its attribute list is consumed: insert the
/// element with its parent set to the top of the stack (or to the document
/// when the stack is empty), append it as that parent's child, and either
/// treat it as already closed (self-closing) or push an open frame.
pub open spec fn spec_finish_tag(
    input: Seq<u8>,
    doc: DocInfoItem,
    self_close: bool,
    s: MachineState,
) -> Result<MachineState, ParseError> {
    match s.mode {
        BuildMode::Attrs { prefix, local, .. } => {
            if !span_valid(input, local) {
                Err(ParseError::Internal)
            } else if !span_empty(prefix) && !span_valid(input, prefix) {
                Err(ParseError::Internal)
            } else {
                let h = ElementInfoItem::mk(s.store.sid, s.store.elements.len() as int);
                let parent_ref = if s.stack.len() > 0 {
                    ElementParentInfoItem::Element(s.stack.last().elem)
                } else {
                    ElementParentInfoItem::Doc(doc)
                };
                let ev = ElementView {
                    namespace_name: None,
                    local_name: local,
                    prefix: if span_empty(prefix) {
                        None
                    } else {
                        Some(prefix)
                    },
                    children: Seq::empty(),
                    attributes: Seq::empty(),
                    namespace_attributes: Seq::empty(),
                    in_scope_namespaces: Seq::empty(),
                    base_uri: None,
                    parent: parent_ref,
                };
                let st1 = StoreV { elements: s.store.elements.push(Slot::Filled(ev)), ..s.store };
                if s.stack.len() > 0 {
                    let st2 = spec_append_child(
                        st1,
                        s.stack.last().elem,
                        ElementChildInfoItem::Element(h),
                    );
                    if self_close {
                        Ok(MachineState { mode: BuildMode::Content, store: st2, ..s })
                    } else {
                        Ok(MachineState {
                            mode: BuildMode::Content,
                            stack: s.stack.push(OpenFrame { elem: h, prefix, local }),
                            store: st2,
                            ..s
                        })
                    }
                } else {
                    if self_close {
                        Ok(MachineState {
                            mode: BuildMode::AfterRootElement,
                            root: Some(h),
                            store: st1,
                            ..s
                        })
                    } else {
                        Ok(MachineState {
                            mode: BuildMode::Content,
                            root: Some(h),
                            stack: s.stack.push(OpenFrame { elem: h, prefix, local }),
                            store: st1,
                            ..s
                        })
                    }
                }
            }
        },
        _ => Err(ParseError::UnexpectedToken),
    }
}

/// One step of the build machine: consume one event in state `s`.
///
/// Structural errors are exactly the ones the machine reports: a token in a
/// mode that forbids it, a second top-level element, a second default
/// namespace declaration on one element, a closing-tag name that does not
/// repeat the opening name, and a document type declaration (recognized but
/// not yet supported). A span that does not denote a substring of the input
/// is a collaborator defect, reported as internal.
pub open spec fn spec_step(
    input: Seq<u8>,
    doc: DocInfoItem,
    ev: RawEvent,
    s: MachineState,
) -> Result<MachineState, ParseError> {
    match ev {
        RawEvent::Declaration { .. } => Err(ParseError::UnexpectedToken),
        RawEvent::DtdStart | RawEvent::EmptyDtd => {
            if s.mode is AfterXmlDecl {
                Err(ParseError::NotSupported)
            } else {
                Err(ParseError::UnexpectedToken)
            }
        },
        RawEvent::ElementStart { prefix, local } => match s.mode {
            BuildMode::AfterXmlDecl | BuildMode::AfterDTD | BuildMode::Content => Ok(
                MachineState {
                    mode: BuildMode::Attrs { prefix, local, seen_default_ns: false },
                    ..s
                },
            ),
            BuildMode::AfterRootElement => Err(ParseError::DuplicateRootElement),
            BuildMode::Attrs { .. } => Err(ParseError::UnexpectedToken),
        },
        RawEvent::Attribute { prefix, local, .. } => match s.mode {
            BuildMode::Attrs { prefix: ep, local: el, seen_default_ns } => {
                if span_empty(prefix) {
                    if !span_valid(input, local) {
                        Err(ParseError::Internal)
                    } else if span_bytes(input, local) == xmlns_bytes() {
                        if seen_default_ns {
                            Err(ParseError::DuplicateNSAttribute)
                        } else {
                            Ok(MachineState {
                                mode: BuildMode::Attrs {
                                    prefix: ep,
                                    local: el,
                                    seen_default_ns: true,
                                },
                                ..s
                            })
                        }
                    } else {
                        Ok(s)
                    }
                } else {
                    if !span_valid(input, prefix) {
                        Err(ParseError::Internal)
                    } else {
                        Ok(s)
                    }
                }
            },
            _ => Err(ParseError::UnexpectedToken),
        },
        RawEvent::ElementEndOpen => spec_finish_tag(input, doc, false, s),
        RawEvent::ElementEndEmpty => spec_finish_tag(input, doc, true, s),
        RawEvent::ElementEndClose { prefix, local } => match s.mode {
            BuildMode::Content => {
                if s.stack.len() == 0 {
                    Err(ParseError::UnexpectedToken)
                } else {
                    let f = s.stack.last();
                    if !(span_valid(input, prefix) && span_valid(input, local) && span_valid(
                        input,
                        f.prefix,
                    ) && span_valid(input, f.local)) {
                        Err(ParseError::Internal)
                    } else if span_bytes(input, f.prefix) == span_bytes(input, prefix)
                        && span_bytes(input, f.local) == span_bytes(input, local) {
                        if s.stack.len() == 1 {
                            Ok(MachineState {
                                mode: BuildMode::AfterRootElement,
                                stack: s.stack.drop_last(),
                                ..s
                            })
                        } else {
                            Ok(MachineState {
                                mode: BuildMode::Content,
                                stack: s.stack.drop_last(),
                                ..s
                            })
                        }
                    } else {
                        Err(ParseError::UnexpectedToken)
                    }
                }
            },
            _ => Err(ParseError::UnexpectedToken),
        },
        RawEvent::Comment { text } => match s.mode {
            BuildMode::AfterXmlDecl | BuildMode::AfterDTD | BuildMode::AfterRootElement => Ok(s),
            BuildMode::Content => {
                if s.stack.len() == 0 {
                    Err(ParseError::UnexpectedToken)
                } else if !span_valid(input, text) {
                    Err(ParseError::Internal)
                } else {
                    let parent = s.stack.last().elem;
                    let h = CommentInfoItem::mk(s.store.sid, s.store.comments.len() as int);
                    let st1 = StoreV {
                        comments: s.store.comments.push(Slot::Filled(CommentData {
                            content: text,
                            parent: CommentParentInfoItem::Element(parent),
                        })),
                        ..s.store
                    };
                    Ok(MachineState {
                        store: spec_append_child(st1, parent, ElementChildInfoItem::Comment(h)),
                        ..s
                    })
                }
            },
            BuildMode::Attrs { .. } => Err(ParseError::UnexpectedToken),
        },
        RawEvent::ProcessingInstruction { target, content } => match s.mode {
            BuildMode::AfterXmlDecl | BuildMode::AfterDTD | BuildMode::AfterRootElement => Ok(s),
            BuildMode::Content => {
                if s.stack.len() == 0 {
                    Err(ParseError::UnexpectedToken)
                } else if !span_valid(input, target) {
                    Err(ParseError::Internal)
                } else if content matches Some(c) && !span_valid(input, c) {
                    Err(ParseError::Internal)
                } else {
                    let parent = s.stack.last().elem;
                    let h = PIInfoItem::mk(s.store.sid, s.store.pis.len() as int);
                    let st1 = StoreV {
                        pis: s.store.pis.push(Slot::Filled(PIData {
                            target,
                            content,
                            base_uri: None,
                            notation: None,
                            parent: PIParentInfoItem::Element(parent),
                        })),
                        ..s.store
                    };
                    Ok(MachineState {
                        store: spec_append_child(st1, parent, ElementChildInfoItem::PI(h)),
                        ..s
                    })
                }
            },
            BuildMode::Attrs { .. } => Err(ParseError::UnexpectedToken),
        },
        RawEvent::Text { .. } | RawEvent::Cdata { .. } | RawEvent::Other => Err(
            ParseError::UnexpectedToken,
        ),
    }
}

/// The machine's state after consuming events `lo..i`, starting from `s0`,
/// or the first error on the way.
pub open spec fn spec_run(
    input: Seq<u8>,
    doc: DocInfoItem,
    events: Seq<RawEvent>,
    lo: int,
    i: int,
    s0: MachineState,
) -> Result<MachineState, ParseError>
    decreases i - lo,
{
    if i <= lo {
        Ok(s0)
    } else {
        match spec_run(input, doc, events, lo, i - 1, s0) {
            Ok(s) => spec_step(input, doc, events[i - 1], s),
            Err(e) => Err(e),
        }
    }
}

/// Whether the leading declaration's spans denote substrings of the input.
pub open spec fn spec_decl_ok(input: Seq<u8>, ev: RawEvent) -> bool {
    &&& span_valid(input, ev->Declaration_version)
    &&& (ev->Declaration_encoding matches Some(sp) ==> span_valid(input, sp))
}

/// The whole build over an event stream against the store `pre`:
/// the document handle is reserved first, an optional leading declaration
/// is consumed, the machine folds over the remaining events, end-of-stream
/// must find the root element complete (a pending lexical error surfaces
/// instead), and the document's deferred fields are then written in one
/// atomic initialization of the reserved slot.
/// The handle the build reserves for the document node.
pub open spec fn spec_doc_handle(pre: StoreV) -> DocInfoItem {
    DocInfoItem::mk(pre.sid, pre.docs.len() as int)
}

/// Whether the stream opens with a declaration event.
pub open spec fn spec_has_decl(events: Seq<RawEvent>) -> bool {
    events.len() > 0 && events[0] is Declaration
}

/// The index of the first event the machine proper consumes.
pub open spec fn spec_i0(events: Seq<RawEvent>) -> int {
    if spec_has_decl(events) {
        1
    } else {
        0
    }
}

/// The machine's starting state: document level, empty stack, no root, and
/// the store with the document slot reserved on top.
pub open spec fn spec_s0(pre: StoreV) -> MachineState {
    MachineState {
        mode: BuildMode::AfterXmlDecl,
        stack: Seq::empty(),
        root: None,
        store: StoreV { docs: pre.docs.push(Slot::Reserved), ..pre },
    }
}

/// The declared version, or the lowest supported version when absent.
pub open spec fn spec_decl_version(input: Seq<u8>, events: Seq<RawEvent>) -> VersionView {
    if spec_has_decl(events) {
        spec_parse_version(span_bytes(input, events[0]->Declaration_version))
    } else {
        VersionView::Version1_0
    }
}

/// The declared encoding scheme, if any.
pub open spec fn spec_decl_encoding(input: Seq<u8>, events: Seq<RawEvent>) -> Option<
    EncodingSchemeView,
> {
    if spec_has_decl(events) {
        match events[0]->Declaration_encoding {
            Some(sp) => Some(spec_parse_encoding(span_bytes(input, sp))),
            None => None,
        }
    } else {
        None
    }
}

/// The declared standalone flag, if any.
pub open spec fn spec_decl_standalone(events: Seq<RawEvent>) -> Option<bool> {
    if spec_has_decl(events) {
        events[0]->Declaration_standalone
    } else {
        None
    }
}

pub open spec fn spec_build(
    input: Seq<u8>,
    events: Seq<RawEvent>,
    lex: Option<xmlparser::Error>,
    pre: StoreV,
) -> Result<(StoreV, DocInfoItem), ParseError> {
    let doc = spec_doc_handle(pre);
    let has_decl = spec_has_decl(events);
    if has_decl && !spec_decl_ok(input, events[0]) {
        Err(ParseError::Internal)
    } else {
        let version = spec_decl_version(input, events);
        let encoding = spec_decl_encoding(input, events);
        let standalone = spec_decl_standalone(events);
        match spec_run(input, doc, events, spec_i0(events), events.len() as int, spec_s0(pre)) {
            Err(e) => Err(e),
            Ok(sf) => match lex {
                Some(e) => Err(ParseError::TokenError(e)),
                None => {
                    if !(sf.mode is AfterRootElement) {
                        Err(ParseError::UnexpectedEOF)
                    } else {
                        match sf.root {
                            None => Err(ParseError::Internal),
                            Some(rt) => {
                                let docv = DocView {
                                    version,
                                    character_encoding_scheme: encoding,
                                    standalone,
                                    document_element: rt,
                                    children: Seq::empty(),
                                    notations: None,
                                    unparsed_entities: Seq::empty(),
                                    base_uri: None,
                                    all_declarations_processed: true,
                                };
                                Ok(
                                    (
                                        StoreV {
                                            docs: sf.store.docs.update(
                                                doc.index(),
                                                Slot::Filled(docv),
                                            ),
                                            ..sf.store
                                        },
                                        doc,
                                    ),
                                )
                            },
                        }
                    }
                },
            },
        }
    }
}

// ---------------------------------------------------------------------------
// Invariants the machine maintains, and their preservation proofs.
// ---------------------------------------------------------------------------

/// How a machine store relates to the store the build started from: same
/// identity, the reserved document slot on top of the old document table,
/// growth only at the end of the element, comment and processing-
/// instruction tables, and every other table untouched.
pub open spec fn store_extends(pre: StoreV, cur: StoreV) -> bool {
    &&& cur.sid == pre.sid
    &&& cur.doc_info_item == pre.doc_info_item
    &&& cur.docs == pre.docs.push(Slot::<DocView>::Reserved)
    &&& cur.elements.len() >= pre.elements.len()
    &&& (forall|j: int| 0 <= j < pre.elements.len() ==> cur.elements[j] == pre.elements[j])
    &&& cur.comments.len() >= pre.comments.len()
    &&& (forall|j: int| 0 <= j < pre.comments.len() ==> cur.comments[j] == pre.comments[j])
    &&& cur.pis.len() >= pre.pis.len()
    &&& (forall|j: int| 0 <= j < pre.pis.len() ==> cur.pis[j] == pre.pis[j])
    &&& cur.attributes == pre.attributes
    &&& cur.uers == pre.uers
    &&& cur.char_groups == pre.char_groups
    &&& cur.dtds == pre.dtds
    &&& cur.unparsed_entities == pre.unparsed_entities
    &&& cur.notations == pre.notations
    &&& cur.namespaces == pre.namespaces
}

/// What holds of every state the machine reaches when started on the store
/// `pre`: the store relation above, a well-formed open-element stack whose
/// frames all name initialized elements created by this build, and the
/// mode/stack/root agreements the step function relies on.
pub open spec fn state_inv(pre: StoreV, doc: DocInfoItem, s: MachineState) -> bool {
    &&& store_extends(pre, s.store)
    &&& doc == DocInfoItem::mk(pre.sid, pre.docs.len() as int)
    &&& (forall|k: int|
        0 <= k < s.stack.len() ==> s.store.element_ok((#[trigger] s.stack[k]).elem))
    &&& (forall|k: int|
        0 <= k < s.stack.len() ==> (#[trigger] s.stack[k]).elem.index() >= pre.elements.len())
    &&& (s.mode is Content ==> s.stack.len() > 0)
    &&& (s.stack.len() > 0 ==> s.root is Some)
    &&& (s.mode is AfterRootElement ==> s.root is Some)
    &&& (s.root matches Some(h) ==> s.store.element_ok(h) && h.index() >= pre.elements.len())
}

/// One machine step preserves the state invariant.
pub proof fn lemma_step_inv(
    input: Seq<u8>,
    pre: StoreV,
    doc: DocInfoItem,
    ev: RawEvent,
    s: MachineState,
    s2: MachineState,
)
    requires
        state_inv(pre, doc, s),
        s.store.elements.len() <= usize::MAX,
        s.store.comments.len() <= usize::MAX,
        s.store.pis.len() <= usize::MAX,
        spec_step(input, doc, ev, s) == Ok::<MachineState, ParseError>(s2),
    ensures
        state_inv(pre, doc, s2),
        s2.store.elements.len() <= s.store.elements.len() + 1,
        s2.store.comments.len() <= s.store.comments.len() + 1,
        s2.store.pis.len() <= s.store.pis.len() + 1,
{
    match ev {
        RawEvent::ElementEndOpen | RawEvent::ElementEndEmpty => {
            lemma_finish_tag_inv(input, pre, doc, ev is ElementEndEmpty, s, s2);
        },
        RawEvent::Comment { text } => {
            if s.mode is Content {
                let parent = s.stack.last().elem;
                assert forall|k: int| 0 <= k < s2.stack.len() implies s2.store.element_ok(
                    (#[trigger] s2.stack[k]).elem,
                ) by {
                    assert(s.store.element_ok(s.stack[k].elem));
                }
                match s.root {
                    Some(h) => {
                        assert(s.store.element_ok(h));
                        assert(s2.store.element_ok(h));
                    },
                    None => {},
                }
            }
        },
        RawEvent::ProcessingInstruction { .. } => {
            if s.mode is Content {
                let parent = s.stack.last().elem;
                assert forall|k: int| 0 <= k < s2.stack.len() implies s2.store.element_ok(
                    (#[trigger] s2.stack[k]).elem,
                ) by {
                    assert(s.store.element_ok(s.stack[k].elem));
                }
                match s.root {
                    Some(h) => {
                        assert(s.store.element_ok(h));
                        assert(s2.store.element_ok(h));
                    },
                    None => {},
                }
            }
        },
        _ => {},
    }
}

/// Finishing a tag preserves the state invariant.
proof fn lemma_finish_tag_inv(
    input: Seq<u8>,
    pre: StoreV,
    doc: DocInfoItem,
    self_close: bool,
    s: MachineState,
    s2: MachineState,
)
    requires
        state_inv(pre, doc, s),
        s.store.elements.len() <= usize::MAX,
        spec_finish_tag(input, doc, self_close, s) == Ok::<MachineState, ParseError>(s2),
    ensures
        state_inv(pre, doc, s2),
        s2.store.elements.len() <= s.store.elements.len() + 1,
        s2.store.comments == s.store.comments,
        s2.store.pis == s.store.pis,
{
    match s.mode {
        BuildMode::Attrs { prefix, local, .. } => {
            let h = ElementInfoItem::mk(s.store.sid, s.store.elements.len() as int);
            ElementInfoItem::lemma_mk(s.store.sid, s.store.elements.len() as int);
            assert forall|k: int| 0 <= k < s2.stack.len() implies s2.store.element_ok(
                (#[trigger] s2.stack[k]).elem,
            ) && s2.stack[k].elem.index() >= pre.elements.len() by {
                if k < s.stack.len() {
                    assert(s.store.element_ok(s.stack[k].elem));
                    assert(s2.stack[k] == s.stack[k]);
                } else {
                    assert(s2.stack[k].elem == h);
                }
            }
            match s.root {
                Some(r0) => {
                    assert(s.store.element_ok(r0));
                    assert(s2.store.element_ok(r0));
                },
                None => {},
            }
            match s2.root {
                Some(r) => {
                    assert(s2.store.element_ok(r));
                },
                None => {},
            }
        },
        _ => {},
    }
}

/// Once the machine fails, it stays failed for the rest of the stream.
pub proof fn lemma_run_err_absorb(
    input: Seq<u8>,
    doc: DocInfoItem,
    events: Seq<RawEvent>,
    lo: int,
    i: int,
    j: int,
    s0: MachineState,
)
    requires
        lo <= i <= j,
        spec_run(input, doc, events, lo, i, s0) is Err,
    ensures
        spec_run(input, doc, events, lo, j, s0) == spec_run(input, doc, events, lo, i, s0),
    decreases j - i,
{
    if j > i {
        lemma_run_err_absorb(input, doc, events, lo, i, j - 1, s0);
    }
}

/// Every state the machine reaches from a state satisfying the invariant
/// satisfies it too.
pub proof fn lemma_run_inv(
    input: Seq<u8>,
    pre: StoreV,
    doc: DocInfoItem,
    events: Seq<RawEvent>,
    lo: int,
    i: int,
    s0: MachineState,
    sf: MachineState,
)
    requires
        lo <= i,
        state_inv(pre, doc, s0),
        s0.store.elements.len() + (i - lo) <= usize::MAX,
        s0.store.comments.len() + (i - lo) <= usize::MAX,
        s0.store.pis.len() + (i - lo) <= usize::MAX,
        spec_run(input, doc, events, lo, i, s0) == Ok::<MachineState, ParseError>(sf),
    ensures
        state_inv(pre, doc, sf),
        sf.store.elements.len() <= s0.store.elements.len() + (i - lo),
        sf.store.comments.len() <= s0.store.comments.len() + (i - lo),
        sf.store.pis.len() <= s0.store.pis.len() + (i - lo),
    decreases i - lo,
{
    if i > lo {
        let mid = spec_run(input, doc, events, lo, i - 1, s0);
        lemma_run_inv(input, pre, doc, events, lo, i - 1, s0, mid->Ok_0);
        lemma_step_inv(input, pre, doc, events[i - 1], mid->Ok_0, sf);
    }
}

} // verus!

verus! {

/// The transaction `t` was begun on a store whose abstraction was `pre`.
pub open spec fn txn_at(t: Transaction, pre: StoreV) -> bool {
    &&& t.store_id() == pre.sid
    &&& t.docs_mark() == pre.docs.len()
    &&& t.elements_mark() == pre.elements.len()
    &&& t.attributes_mark() == pre.attributes.len()
    &&& t.pis_mark() == pre.pis.len()
    &&& t.uers_mark() == pre.uers.len()
    &&& t.char_groups_mark() == pre.char_groups.len()
    &&& t.comments_mark() == pre.comments.len()
    &&& t.dtds_mark() == pre.dtds.len()
    &&& t.unparsed_entities_mark() == pre.unparsed_entities.len()
    &&& t.notations_mark() == pre.notations.len()
    &&& t.namespaces_mark() == pre.namespaces.len()
}

/// Rolling back a transaction begun on `pre`, from any store the machine
/// reached, restores `pre`'s observable state.
proof fn lemma_wipe_restores(pre: StoreV, mid: StoreV, post: StoreV, t: Transaction)
    requires
        txn_at(t, pre),
        store_extends(pre, mid),
        t.rolls_back(mid, post),
    ensures
        store_restored(pre, post),
{
    assert(table_restored(pre.docs, post.docs)) by {
        assert(mid.docs.len() == pre.docs.len() + 1);
        assert forall|i: int| 0 <= i < pre.docs.len() implies post.docs[i] == pre.docs[i] by {
            assert(post.docs[i] == mid.docs[i]);
        }
    }
    assert(table_restored(pre.elements, post.elements)) by {
        assert forall|i: int| 0 <= i < pre.elements.len() implies post.elements[i]
            == pre.elements[i] by {
            assert(post.elements[i] == mid.elements[i]);
        }
    }
    assert(table_restored(pre.comments, post.comments)) by {
        assert forall|i: int| 0 <= i < pre.comments.len() implies post.comments[i]
            == pre.comments[i] by {
            assert(post.comments[i] == mid.comments[i]);
        }
    }
    assert(table_restored(pre.pis, post.pis)) by {
        assert forall|i: int| 0 <= i < pre.pis.len() implies post.pis[i] == pre.pis[i] by {
            assert(post.pis[i] == mid.pis[i]);
        }
    }
}

/// Abandon a failed build: roll the transaction back, so the store's
/// observable state is exactly what it was before the build began.
fn discard_build(txn: Transaction, repo: &mut InfoSetData, Ghost(pre): Ghost<StoreV>)
    requires
        txn_at(txn, pre),
        store_extends(pre, old(repo)@),
    ensures
        store_restored(pre, final(repo)@),
{
    let ghost mid: StoreV = repo@;
    match txn.rollback(repo) {
        Ok(()) => {
            proof {
                lemma_wipe_restores(pre, mid, repo@, txn);
            }
        },
        Err(_) => vstd::pervasive::unreached(),
    }
}

/// A step error at position `i` is the whole build's error.
proof fn lemma_build_err_at(
    input: Seq<u8>,
    events: Seq<RawEvent>,
    lex: Option<xmlparser::Error>,
    pre: StoreV,
    i: int,
    cur: MachineState,
    e: ParseError,
)
    requires
        spec_has_decl(events) ==> spec_decl_ok(input, events[0]),
        spec_i0(events) <= i < events.len(),
        spec_run(input, spec_doc_handle(pre), events, spec_i0(events), i, spec_s0(pre))
            == Ok::<MachineState, ParseError>(cur),
        spec_step(input, spec_doc_handle(pre), events[i], cur) == Err::<MachineState, ParseError>(
            e,
        ),
    ensures
        spec_build(input, events, lex, pre) == Err::<(StoreV, DocInfoItem), ParseError>(e),
{
    let doc = spec_doc_handle(pre);
    let s0 = spec_s0(pre);
    let i0 = spec_i0(events);
    assert(spec_run(input, doc, events, i0, i + 1, s0) == Err::<MachineState, ParseError>(e));
    lemma_run_err_absorb(input, doc, events, i0, i + 1, events.len() as int, s0);
}

/// Drive the build state machine over a ready event stream, against `repo`.
///
/// This is the whole token-driven construction: the result — the final
/// store on success, the error otherwise — equals `spec_build` on the same
/// arguments. On failure the transaction wrapping the build is rolled back,
/// so the store's observable state is exactly what it was before the call:
/// no partial graph is ever observable.
pub fn parse_events(
    input: &str,
    events: &Vec<RawEvent>,
    lex_error: Option<xmlparser::Error>,
    repo: &mut InfoSetData,
) -> (r: Result<DocInfoItem, ParseError>)
    ensures
        r matches Ok(doc) ==> spec_build(input.spec_bytes(), events@, lex_error, old(repo)@)
            == Ok::<(StoreV, DocInfoItem), ParseError>((final(repo)@, doc)),
        r matches Ok(doc) ==> final(repo)@.doc_ok(doc) && final(repo)@.element_ok(
            final(repo)@.doc_at(doc).document_element,
        ),
        r matches Err(e) ==> spec_build(input.spec_bytes(), events@, lex_error, old(repo)@)
            == Err::<(StoreV, DocInfoItem), ParseError>(e) && store_restored(
            old(repo)@,
            final(repo)@,
        ),
{
    let ghost pre: StoreV = repo@;
    let ghost inb: Seq<u8> = input.spec_bytes();
    proof {
        repo.lemma_table_bounds();
    }
    let txn = Transaction::begin(repo);
    let doc = DocInfoItem::new_not_yet_parsed(repo);
    proof {
        assert(doc == spec_doc_handle(pre));
        assert(repo@ == spec_s0(pre).store);
        DocInfoItem::lemma_mk(pre.sid, pre.docs.len() as int);
    }

    // Leading declaration, consumed only as the very first token.
    let mut i: usize = 0;
    let mut version: Option<Version> = None;
    let mut encoding: Option<EncodingScheme> = None;
    let mut standalone: Option<bool> = None;
    if events.len() > 0 {
        let e0 = events[0];
        if let RawEvent::Declaration { version: vsp, encoding: esp, standalone: sa } = e0 {
            match str_range(input, vsp.start, vsp.end) {
                Ok(vs) => {
                    version = Some(parse_version(vs));
                },
                Err(_) => {
                    proof {
                        assert(!spec_decl_ok(inb, events@[0]));
                    }
                    discard_build(txn, repo, Ghost(pre));
                    return Err(ParseError::Internal);
                },
            }
            match esp {
                Some(sp) => {
                    match str_range(input, sp.start, sp.end) {
                        Ok(es) => {
                            encoding = Some(parse_encoding_scheme(es));
                        },
                        Err(_) => {
                            proof {
                                assert(!spec_decl_ok(inb, events@[0]));
                            }
                            discard_build(txn, repo, Ghost(pre));
                            return Err(ParseError::Internal);
                        },
                    }
                },
                None => {},
            }
            standalone = sa;
            i = 1;
        }
    }
    proof {
        assert(spec_has_decl(events@) ==> spec_decl_ok(inb, events@[0]));
        assert(i as int == spec_i0(events@));
        assert(match version {
            Some(v) => spec_has_decl(events@) && v@ == spec_decl_version(inb, events@),
            None => !spec_has_decl(events@),
        });
        assert(crate::opt_encoding_view(encoding) == spec_decl_encoding(inb, events@));
        assert(standalone == spec_decl_standalone(events@));
    }

    let ghost gi0: int = i as int;
    let ghost s0: MachineState = MachineState {
        mode: BuildMode::AfterXmlDecl,
        stack: Seq::empty(),
        root: None,
        store: repo@,
    };
    let mut mode: BuildMode = BuildMode::AfterXmlDecl;
    let mut stack: Vec<OpenFrame> = Vec::new();
    let mut root: Option<ElementInfoItem> = None;
    proof {
        assert(s0 == spec_s0(pre));
        assert(state_inv(pre, doc, s0));
    }
    #[verifier::loop_isolation(false)]
    while i < events.len()
        invariant
            gi0 <= i as int <= events@.len(),
            spec_run(inb, doc, events@, gi0, i as int, s0) == Ok::<MachineState, ParseError>(
                MachineState { mode, stack: stack@, root, store: repo@ },
            ),
            state_inv(pre, doc, MachineState { mode, stack: stack@, root, store: repo@ }),
        decreases events@.len() - i as int,
    {
        let ghost cur: MachineState = MachineState { mode, stack: stack@, root, store: repo@ };
        let ev = events[i];
        proof {
            repo.lemma_table_bounds();
        }
        match ev {
            RawEvent::Declaration { .. } | RawEvent::Text { .. } | RawEvent::Cdata { .. }
                | RawEvent::Other => {
                proof {
                    lemma_build_err_at(
                        inb,
                        events@,
                        lex_error,
                        pre,
                        i as int,
                        cur,
                        ParseError::UnexpectedToken,
                    );
                }
                discard_build(txn, repo, Ghost(pre));
                return Err(ParseError::UnexpectedToken);
            },
            RawEvent::DtdStart | RawEvent::EmptyDtd => {
                let e = if matches!(mode, BuildMode::AfterXmlDecl) {
                    ParseError::NotSupported
                } else {
                    ParseError::UnexpectedToken
                };
                proof {
                    lemma_build_err_at(inb, events@, lex_error, pre, i as int, cur, e);
                }
                discard_build(txn, repo, Ghost(pre));
                return Err(e);
            },
            RawEvent::ElementStart { prefix, local } => {
                match mode {
                    BuildMode::AfterXmlDecl | BuildMode::AfterDTD | BuildMode::Content => {
                        mode = BuildMode::Attrs { prefix, local, seen_default_ns: false };
                        proof {
                            let next = MachineState { mode, stack: stack@, root, store: repo@ };
                            assert(spec_step(inb, doc, events@[i as int], cur)
                                == Ok::<MachineState, ParseError>(next));
                            lemma_step_inv(inb, pre, doc, events@[i as int], cur, next);
                        }
                    },
                    BuildMode::AfterRootElement => {
                        proof {
                            lemma_build_err_at(
                                inb,
                                events@,
                                lex_error,
                                pre,
                                i as int,
                                cur,
                                ParseError::DuplicateRootElement,
                            );
                        }
                        discard_build(txn, repo, Ghost(pre));
                        return Err(ParseError::DuplicateRootElement);
                    },
                    BuildMode::Attrs { .. } => {
                        proof {
                            lemma_build_err_at(
                                inb,
                                events@,
                                lex_error,
                                pre,
                                i as int,
                                cur,
                                ParseError::UnexpectedToken,
                            );
                        }
                        discard_build(txn, repo, Ghost(pre));
                        return Err(ParseError::UnexpectedToken);
                    },
                }
            },
            RawEvent::Attribute { prefix, local, .. } => {
                match mode {
                    BuildMode::Attrs { prefix: ep, local: el, seen_default_ns } => {
                        if prefix.start >= prefix.end {
                            match str_range(input, local.start, local.end) {
                                Err(_) => {
                                    proof {
                                        lemma_build_err_at(
                                            inb,
                                            events@,
                                            lex_error,
                                            pre,
                                            i as int,
                                            cur,
                                            ParseError::Internal,
                                        );
                                    }
                                    discard_build(txn, repo, Ghost(pre));
                                    return Err(ParseError::Internal);
                                },
                                Ok(ltext) => {
                                    if is_xmlns(ltext) {
                                        if seen_default_ns {
                                            proof {
                                                lemma_build_err_at(
                                                    inb,
                                                    events@,
                                                    lex_error,
                                                    pre,
                                                    i as int,
                                                    cur,
                                                    ParseError::DuplicateNSAttribute,
                                                );
                                            }
                                            discard_build(txn, repo, Ghost(pre));
                                            return Err(ParseError::DuplicateNSAttribute);
                                        } else {
                                            mode = BuildMode::Attrs {
                                                prefix: ep,
                                                local: el,
                                                seen_default_ns: true,
                                            };
                                            proof {
                                                let next = MachineState {
                                                    mode,
                                                    stack: stack@,
                                                    root,
                                                    store: repo@,
                                                };
                                                assert(spec_step(inb, doc, events@[i as int], cur)
                                                    == Ok::<MachineState, ParseError>(next));
                                                lemma_step_inv(
                                                    inb,
                                                    pre,
                                                    doc,
                                                    events@[i as int],
                                                    cur,
                                                    next,
                                                );
                                            }
                                        }
                                    } else {
                                        proof {
                                            assert(spec_step(inb, doc, events@[i as int], cur)
                                                == Ok::<MachineState, ParseError>(cur));
                                        }
                                    }
                                },
                            }
                        } else {
                            match str_range(input, prefix.start, prefix.end) {
                                Err(_) => {
                                    proof {
                                        lemma_build_err_at(
                                            inb,
                                            events@,
                                            lex_error,
                                            pre,
                                            i as int,
                                            cur,
                                            ParseError::Internal,
                                        );
                                    }
                                    discard_build(txn, repo, Ghost(pre));
                                    return Err(ParseError::Internal);
                                },
                                Ok(_) => {
                                    proof {
                                        assert(spec_step(inb, doc, events@[i as int], cur)
                                            == Ok::<MachineState, ParseError>(cur));
                                    }
                                },
                            }
                        }
                    },
                    _ => {
                        proof {
                            lemma_build_err_at(
                                inb,
                                events@,
                                lex_error,
                                pre,
                                i as int,
                                cur,
                                ParseError::UnexpectedToken,
                            );
                        }
                        discard_build(txn, repo, Ghost(pre));
                        return Err(ParseError::UnexpectedToken);
                    },
                }
            },
            RawEvent::ElementEndOpen | RawEvent::ElementEndEmpty => {
                let self_close = matches!(ev, RawEvent::ElementEndEmpty);
                match mode {
                    BuildMode::Attrs { prefix, local, .. } => {
                        if str_range(input, local.start, local.end).is_err() {
                            proof {
                                lemma_build_err_at(
                                    inb,
                                    events@,
                                    lex_error,
                                    pre,
                                    i as int,
                                    cur,
                                    ParseError::Internal,
                                );
                            }
                            discard_build(txn, repo, Ghost(pre));
                            return Err(ParseError::Internal);
                        }
                        if !(prefix.start >= prefix.end) && str_range(
                            input,
                            prefix.start,
                            prefix.end,
                        ).is_err() {
                            proof {
                                lemma_build_err_at(
                                    inb,
                                    events@,
                                    lex_error,
                                    pre,
                                    i as int,
                                    cur,
                                    ParseError::Internal,
                                );
                            }
                            discard_build(txn, repo, Ghost(pre));
                            return Err(ParseError::Internal);
                        }
                        let parent_opt: Option<ElementInfoItem> = if stack.len() > 0 {
                            Some(stack[stack.len() - 1].elem)
                        } else {
                            None
                        };
                        let parent_ref = match parent_opt {
                            Some(p) => ElementParentInfoItem::Element(p),
                            None => ElementParentInfoItem::Doc(doc),
                        };
                        let pfx_opt: Option<Span> = if prefix.start >= prefix.end {
                            None
                        } else {
                            Some(prefix)
                        };
                        let h = ElementInfoItem::new(
                            None,
                            local,
                            pfx_opt,
                            Vec::new(),
                            Vec::new(),
                            Vec::new(),
                            Vec::new(),
                            None,
                            parent_ref,
                            repo,
                        );
                        match parent_opt {
                            Some(p) => {
                                match repo.append_element_child(
                                    p,
                                    ElementChildInfoItem::Element(h),
                                ) {
                                    Ok(()) => {},
                                    Err(_) => vstd::pervasive::unreached(),
                                }
                                if self_close {
                                    mode = BuildMode::Content;
                                } else {
                                    stack.push(OpenFrame { elem: h, prefix, local });
                                    mode = BuildMode::Content;
                                }
                            },
                            None => {
                                root = Some(h);
                                if self_close {
                                    mode = BuildMode::AfterRootElement;
                                } else {
                                    stack.push(OpenFrame { elem: h, prefix, local });
                                    mode = BuildMode::Content;
                                }
                            },
                        }
                        proof {
                            let next = MachineState { mode, stack: stack@, root, store: repo@ };
                            assert(spec_step(inb, doc, events@[i as int], cur)
                                == Ok::<MachineState, ParseError>(next));
                            lemma_step_inv(inb, pre, doc, events@[i as int], cur, next);
                        }
                    },
                    _ => {
                        proof {
                            lemma_build_err_at(
                                inb,
                                events@,
                                lex_error,
                                pre,
                                i as int,
                                cur,
                                ParseError::UnexpectedToken,
                            );
                        }
                        discard_build(txn, repo, Ghost(pre));
                        return Err(ParseError::UnexpectedToken);
                    },
                }
            },
            RawEvent::ElementEndClose { prefix, local } => {
                match mode {
                    BuildMode::Content => {
                        if stack.len() == 0 {
                            proof {
                                lemma_build_err_at(
                                    inb,
                                    events@,
                                    lex_error,
                                    pre,
                                    i as int,
                                    cur,
                                    ParseError::UnexpectedToken,
                                );
                            }
                            discard_build(txn, repo, Ghost(pre));
                            return Err(ParseError::UnexpectedToken);
                        }
                        let f = stack[stack.len() - 1];
                        let cp = str_range(input, prefix.start, prefix.end);
                        let cl = str_range(input, local.start, local.end);
                        let fp = str_range(input, f.prefix.start, f.prefix.end);
                        let fl = str_range(input, f.local.start, f.local.end);
                        match (cp, cl, fp, fl) {
                            (Ok(cps), Ok(cls), Ok(fps), Ok(fls)) => {
                                if bytes_eq(fps.as_bytes(), cps.as_bytes()) && bytes_eq(
                                    fls.as_bytes(),
                                    cls.as_bytes(),
                                ) {
                                    match stack.pop() {
                                        Some(_) => {},
                                        None => vstd::pervasive::unreached(),
                                    }
                                    if stack.len() == 0 {
                                        mode = BuildMode::AfterRootElement;
                                    } else {
                                        mode = BuildMode::Content;
                                    }
                                    proof {
                                        let next = MachineState {
                                            mode,
                                            stack: stack@,
                                            root,
                                            store: repo@,
                                        };
                                        assert(stack@ =~= cur.stack.drop_last());
                                        assert(spec_step(inb, doc, events@[i as int], cur)
                                            == Ok::<MachineState, ParseError>(next));
                                        lemma_step_inv(inb, pre, doc, events@[i as int], cur, next);
                                    }
                                } else {
                                    proof {
                                        lemma_build_err_at(
                                            inb,
                                            events@,
                                            lex_error,
                                            pre,
                                            i as int,
                                            cur,
                                            ParseError::UnexpectedToken,
                                        );
                                    }
                                    discard_build(txn, repo, Ghost(pre));
                                    return Err(ParseError::UnexpectedToken);
                                }
                            },
                            _ => {
                                proof {
                                    lemma_build_err_at(
                                        inb,
                                        events@,
                                        lex_error,
                                        pre,
                                        i as int,
                                        cur,
                                        ParseError::Internal,
                                    );
                                }
                                discard_build(txn, repo, Ghost(pre));
                                return Err(ParseError::Internal);
                            },
                        }
                    },
                    _ => {
                        proof {
                            lemma_build_err_at(
                                inb,
                                events@,
                                lex_error,
                                pre,
                                i as int,
                                cur,
                                ParseError::UnexpectedToken,
                            );
                        }
                        discard_build(txn, repo, Ghost(pre));
                        return Err(ParseError::UnexpectedToken);
                    },
                }
            },
            RawEvent::Comment { text } => {
                match mode {
                    BuildMode::AfterXmlDecl | BuildMode::AfterDTD | BuildMode::AfterRootElement => {
                        proof {
                            assert(spec_step(inb, doc, events@[i as int], cur)
                                == Ok::<MachineState, ParseError>(cur));
                        }
                    },
                    BuildMode::Content => {
                        if stack.len() == 0 {
                            proof {
                                lemma_build_err_at(
                                    inb,
                                    events@,
                                    lex_error,
                                    pre,
                                    i as int,
                                    cur,
                                    ParseError::UnexpectedToken,
                                );
                            }
                            discard_build(txn, repo, Ghost(pre));
                            return Err(ParseError::UnexpectedToken);
                        }
                        if str_range(input, text.start, text.end).is_err() {
                            proof {
                                lemma_build_err_at(
                                    inb,
                                    events@,
                                    lex_error,
                                    pre,
                                    i as int,
                                    cur,
                                    ParseError::Internal,
                                );
                            }
                            discard_build(txn, repo, Ghost(pre));
                            return Err(ParseError::Internal);
                        }
                        let parent = stack[stack.len() - 1].elem;
                        let h = CommentInfoItem::new(
                            text,
                            CommentParentInfoItem::Element(parent),
                            repo,
                        );
                        match repo.append_element_child(parent, ElementChildInfoItem::Comment(h)) {
                            Ok(()) => {},
                            Err(_) => vstd::pervasive::unreached(),
                        }
                        proof {
                            let next = MachineState { mode, stack: stack@, root, store: repo@ };
                            assert(spec_step(inb, doc, events@[i as int], cur)
                                == Ok::<MachineState, ParseError>(next));
                            lemma_step_inv(inb, pre, doc, events@[i as int], cur, next);
                        }
                    },
                    BuildMode::Attrs { .. } => {
                        proof {
                            lemma_build_err_at(
                                inb,
                                events@,
                                lex_error,
                                pre,
                                i as int,
                                cur,
                                ParseError::UnexpectedToken,
                            );
                        }
                        discard_build(txn, repo, Ghost(pre));
                        return Err(ParseError::UnexpectedToken);
                    },
                }
            },
            RawEvent::ProcessingInstruction { target, content } => {
                match mode {
                    BuildMode::AfterXmlDecl | BuildMode::AfterDTD | BuildMode::AfterRootElement => {
                        proof {
                            assert(spec_step(inb, doc, events@[i as int], cur)
                                == Ok::<MachineState, ParseError>(cur));
                        }
                    },
                    BuildMode::Content => {
                        if stack.len() == 0 {
                            proof {
                                lemma_build_err_at(
                                    inb,
                                    events@,
                                    lex_error,
                                    pre,
                                    i as int,
                                    cur,
                                    ParseError::UnexpectedToken,
                                );
                            }
                            discard_build(txn, repo, Ghost(pre));
                            return Err(ParseError::UnexpectedToken);
                        }
                        if str_range(input, target.start, target.end).is_err() {
                            proof {
                                lemma_build_err_at(
                                    inb,
                                    events@,
                                    lex_error,
                                    pre,
                                    i as int,
                                    cur,
                                    ParseError::Internal,
                                );
                            }
                            discard_build(txn, repo, Ghost(pre));
                            return Err(ParseError::Internal);
                        }
                        let content_bad = match content {
                            Some(c) => str_range(input, c.start, c.end).is_err(),
                            None => false,
                        };
                        if content_bad {
                            proof {
                                lemma_build_err_at(
                                    inb,
                                    events@,
                                    lex_error,
                                    pre,
                                    i as int,
                                    cur,
                                    ParseError::Internal,
                                );
                            }
                            discard_build(txn, repo, Ghost(pre));
                            return Err(ParseError::Internal);
                        }
                        let parent = stack[stack.len() - 1].elem;
                        let h = PIInfoItem::new(
                            target,
                            content,
                            None,
                            None,
                            PIParentInfoItem::Element(parent),
                            repo,
                        );
                        match repo.append_element_child(parent, ElementChildInfoItem::PI(h)) {
                            Ok(()) => {},
                            Err(_) => vstd::pervasive::unreached(),
                        }
                        proof {
                            let next = MachineState { mode, stack: stack@, root, store: repo@ };
                            assert(spec_step(inb, doc, events@[i as int], cur)
                                == Ok::<MachineState, ParseError>(next));
                            lemma_step_inv(inb, pre, doc, events@[i as int], cur, next);
                        }
                    },
                    BuildMode::Attrs { .. } => {
                        proof {
                            lemma_build_err_at(
                                inb,
                                events@,
                                lex_error,
                                pre,
                                i as int,
                                cur,
                                ParseError::UnexpectedToken,
                            );
                        }
                        discard_build(txn, repo, Ghost(pre));
                        return Err(ParseError::UnexpectedToken);
                    },
                }
            },
        }
        i = i + 1;
    }

    // End of the event stream.
    if let Some(e) = lex_error {
        proof {
            assert(spec_build(inb, events@, lex_error, pre) == Err::<
                (StoreV, DocInfoItem),
                ParseError,
            >(ParseError::TokenError(e)));
        }
        discard_build(txn, repo, Ghost(pre));
        return Err(ParseError::TokenError(e));
    }
    if !matches!(mode, BuildMode::AfterRootElement) {
        proof {
            assert(spec_build(inb, events@, lex_error, pre) == Err::<
                (StoreV, DocInfoItem),
                ParseError,
            >(ParseError::UnexpectedEOF));
        }
        discard_build(txn, repo, Ghost(pre));
        return Err(ParseError::UnexpectedEOF);
    }
    let ghost sf: MachineState = MachineState { mode, stack: stack@, root, store: repo@ };
    let rt = match root {
        Some(rt) => rt,
        None => vstd::pervasive::unreached(),
    };
    let vfinal: Version = match version {
        Some(v) => v,
        None => Version::Version1_0,
    };
    let d = DocData {
        version: vfinal,
        character_encoding_scheme: encoding,
        standalone,
        document_element: rt,
        children: Vec::new(),
        notations: None,
        unparsed_entities: Vec::new(),
        base_uri: None,
        all_declarations_processed: true,
    };
    let ghost dv: DocView = d@;
    match doc.transition_to_parsed_from_not_yet_parsed(d, repo) {
        Ok(()) => {},
        Err(_) => vstd::pervasive::unreached(),
    }
    proof {
        assert(no_open_reservations(repo@.docs, txn.docs_mark()));
    }
    match txn.commit(repo) {
        Ok(()) => {},
        Err(_) => vstd::pervasive::unreached(),
    }
    proof {
        assert(dv.children =~= Seq::<DocChildInfoItem>::empty());
        assert(dv.unparsed_entities =~= Seq::<crate::UEInfoItem>::empty());
        assert(repo@ =~= (StoreV {
            docs: sf.store.docs.update(doc.index(), Slot::Filled(DocView {
                version: spec_decl_version(inb, events@),
                character_encoding_scheme: spec_decl_encoding(inb, events@),
                standalone: spec_decl_standalone(events@),
                document_element: rt,
                children: Seq::empty(),
                notations: None,
                unparsed_entities: Seq::empty(),
                base_uri: None,
                all_declarations_processed: true,
            })),
            ..sf.store
        }));
        assert(spec_build(inb, events@, lex_error, pre) == Ok::<
            (StoreV, DocInfoItem),
            ParseError,
        >((repo@, doc)));
        assert(repo@.doc_ok(doc));
        assert(repo@.element_ok(rt));
        assert(repo@.doc_at(doc).document_element == rt);
    }
    Ok(doc)
}

} // verus!

verus! {


/// An empty store carrying the given identity token: nothing recorded,
/// every table empty. Fresh stores differ from it only in their token.
pub open spec fn spec_empty_store(sid: u64) -> StoreV {
    StoreV {
        sid,
        doc_info_item: None,
        docs: Seq::empty(),
        elements: Seq::empty(),
        attributes: Seq::empty(),
        pis: Seq::empty(),
        uers: Seq::empty(),
        char_groups: Seq::empty(),
        comments: Seq::empty(),
        dtds: Seq::empty(),
        unparsed_entities: Seq::empty(),
        notations: Seq::empty(),
        namespaces: Seq::empty(),
    }
}

/// The canonical machine run over an input text's named event stream,
/// from an empty store.
pub open spec fn canonical_run(input: Seq<u8>) -> Result<MachineState, ParseError> {
    let events = spec_events_of(input);
    let pre = spec_empty_store(0);
    spec_run(
        input,
        spec_doc_handle(pre),
        events,
        spec_i0(events),
        events.len() as int,
        spec_s0(pre),
    )
}

/// The canonical build of an input text: the machine over the input's
/// named event stream, into an empty store. By
/// [`lemma_build_outcome_sim`], success and the reported error are the
/// same for every starting store with the same table extents, whatever its
/// identity token.
pub open spec fn canonical_build(input: Seq<u8>) -> Result<(StoreV, DocInfoItem), ParseError> {
    spec_build(input, spec_events_of(input), None, spec_empty_store(0))
}

/// When parsing an input text succeeds: its event stream carries no
/// lexical error and the build machine accepts it.
pub open spec fn spec_parse_ok(input: Seq<u8>) -> bool {
    !spec_lex_err_of(input) && canonical_build(input) is Ok
}

/// Which error a failed parse of an input text reports: the declaration's
/// span defect, the machine's own error wherever the machine fails, and
/// otherwise — with the whole stream consumed — the wrapped lexical error
/// if one is pending (its payload is the tokenizer's and is not fixed
/// here), the truncation error if the root element never completed, or the
/// root-bookkeeping defect.
pub open spec fn spec_parse_err_matches(input: Seq<u8>, e: ParseError) -> bool {
    let events = spec_events_of(input);
    if spec_has_decl(events) && !spec_decl_ok(input, events[0]) {
        e is Internal
    } else {
        match canonical_run(input) {
            Err(e2) => e == e2,
            Ok(sf) => {
                if spec_lex_err_of(input) {
                    e is TokenError
                } else if !(sf.mode is AfterRootElement) {
                    e is UnexpectedEOF
                } else if sf.root is None {
                    e is Internal
                } else {
                    false
                }
            },
        }
    }
}

/// A failed build over the named events, from an empty store, reports
/// exactly the error `spec_parse_err_matches` describes, and the parse is
/// not owed success.
proof fn lemma_canonical_err(input: Seq<u8>, lex: Option<xmlparser::Error>, e: ParseError)
    requires
        (lex is Some) == spec_lex_err_of(input),
        spec_build(input, spec_events_of(input), lex, spec_empty_store(0)) == Err::<
            (StoreV, DocInfoItem),
            ParseError,
        >(e),
    ensures
        spec_parse_err_matches(input, e),
        !spec_parse_ok(input),
{
    let events = spec_events_of(input);
    let pre = spec_empty_store(0);
    if spec_has_decl(events) && !spec_decl_ok(input, events[0]) {
        assert(e is Internal);
    } else {
        match canonical_run(input) {
            Err(e2) => {
                assert(e == e2);
            },
            Ok(sf) => {
                match lex {
                    Some(_) => {
                        assert(e is TokenError);
                    },
                    None => {
                        if !(sf.mode is AfterRootElement) {
                            assert(e == ParseError::UnexpectedEOF);
                        } else if sf.root is None {
                            assert(e == ParseError::Internal);
                        } else {
                            assert(false);
                        }
                    },
                }
            },
        }
    }
}

/// What a successful build guarantees of its result: the returned handle
/// is the reserved-then-initialized document slot of the same store.
pub proof fn lemma_build_ok_facts(
    input: Seq<u8>,
    events: Seq<RawEvent>,
    lex: Option<xmlparser::Error>,
    pre: StoreV,
    st: StoreV,
    doc: DocInfoItem,
)
    requires
        pre.docs.len() <= usize::MAX,
        pre.elements.len() + events.len() <= usize::MAX,
        pre.comments.len() + events.len() <= usize::MAX,
        pre.pis.len() + events.len() <= usize::MAX,
        spec_build(input, events, lex, pre) == Ok::<(StoreV, DocInfoItem), ParseError>((st, doc)),
    ensures
        st.sid == pre.sid,
        doc == spec_doc_handle(pre),
        st.doc_ok(doc),
{
    let dh = spec_doc_handle(pre);
    let s0 = spec_s0(pre);
    let i0 = spec_i0(events);
    let rr = spec_run(input, dh, events, i0, events.len() as int, s0);
    let sf = rr->Ok_0;
    assert(state_inv(pre, dh, s0));
    lemma_run_inv(input, pre, dh, events, i0, events.len() as int, s0, sf);
    DocInfoItem::lemma_mk(pre.sid, pre.docs.len() as int);
}

/// Parse a whole input buffer, and also report side observations (whether
/// any non-standard entity reference was seen; none ever is, since entity
/// references are not yet recognized as content).
///
/// On success the result holds the retained input, the store, and a
/// recorded document handle that resolves in that store; on failure no
/// partial graph is observable anywhere.
pub fn parse_with_statistics<'input>(input: &'input str) -> (r: Result<
    (InfoSet<'input>, InfoSetStatistics),
    ParseError,
>)
    ensures
        r is Ok <==> spec_parse_ok(input.spec_bytes()),
        r matches Err(e) ==> spec_parse_err_matches(input.spec_bytes(), e),
        r matches Ok(p) ==> {
            &&& !p.1.has_nonstandard_entity_reference
            &&& p.0.input@ == input@
            &&& p.0.data@.doc_info_item matches Some(doc) && p.0.data@.doc_ok(doc)
                && p.0.data@.element_ok(p.0.data@.doc_at(doc).document_element)
            &&& p.0.data@.spans_wf(input.spec_bytes())
        },
{
    let (events, lex) = tokenize(input);
    let ghost n_events: int = events@.len() as int;
    assert(n_events <= usize::MAX) by {
        assert(events.len() == events@.len());
    }
    let mut data = InfoSetData::default();
    let ghost pre: StoreV = data@;
    match parse_events(input, &events, lex, &mut data) {
        Ok(doc) => {
            proof {
                lemma_build_ok_facts(input.spec_bytes(), events@, lex, pre, data@, doc);
                lemma_build_wf(input.spec_bytes(), events@, lex, pre, data@, doc);
                lemma_build_outcome_sim(
                    input.spec_bytes(),
                    events@,
                    lex,
                    pre,
                    spec_empty_store(0),
                );
                assert(lex is None);
                assert(spec_parse_ok(input.spec_bytes()));
            }
            data.set_doc_info_item(Some(doc));
            let stats = InfoSetStatistics::default();
            Ok((InfoSet { input, data }, stats))
        },
        Err(e) => {
            proof {
                lemma_build_outcome_sim(
                    input.spec_bytes(),
                    events@,
                    lex,
                    pre,
                    spec_empty_store(0),
                );
                lemma_canonical_err(input.spec_bytes(), lex, e);
            }
            Err(e)
        },
    }
}

/// Parse a whole input buffer into an information-set graph.
///
/// On success the result holds the retained input, the store, and a
/// recorded document handle that resolves in that store; on failure no
/// partial graph is observable anywhere.
pub fn parse<'input>(input: &'input str) -> (r: Result<InfoSet<'input>, ParseError>)
    ensures
        r is Ok <==> spec_parse_ok(input.spec_bytes()),
        r matches Err(e) ==> spec_parse_err_matches(input.spec_bytes(), e),
        r matches Ok(infoset) ==> {
            &&& infoset.input@ == input@
            &&& infoset.data@.doc_info_item matches Some(doc) && infoset.data@.doc_ok(doc)
                && infoset.data@.element_ok(infoset.data@.doc_at(doc).document_element)
            &&& infoset.data@.spans_wf(input.spec_bytes())
        },
{
    match parse_with_statistics(input) {
        Ok(p) => Ok(p.0),
        Err(e) => Err(e),
    }
}

} // verus!

verus! {

/// One machine step preserves span well-formedness: the only spans a step
/// writes into the store are ones it has just checked against the input.
proof fn lemma_step_wf(
    input: Seq<u8>,
    pre: StoreV,
    doc: DocInfoItem,
    ev: RawEvent,
    s: MachineState,
    s2: MachineState,
)
    requires
        state_inv(pre, doc, s),
        s.store.spans_wf(input),
        spec_step(input, doc, ev, s) == Ok::<MachineState, ParseError>(s2),
    ensures
        s2.store.spans_wf(input),
{
    match ev {
        RawEvent::ElementEndOpen | RawEvent::ElementEndEmpty => {
            match s.mode {
                BuildMode::Attrs { prefix, local, .. } => {
                    let n = s.store.elements.len() as int;
                    assert forall|i: int|
                        0 <= i < s2.store.elements.len() && s2.store.elements[i] is Filled
                        implies (#[trigger] s2.store.elements[i]).value().spans_wf(input) by {
                        if i == n {
                            assert(span_valid(input, local));
                        } else if s.stack.len() > 0 && i == s.stack.last().elem.index() {
                            assert(s.store.element_ok(s.stack.last().elem));
                            assert(s.store.elements[i].value().spans_wf(input));
                        } else {
                            assert(s2.store.elements[i] == s.store.elements[i]);
                        }
                    }
                },
                _ => {},
            }
        },
        RawEvent::Comment { text } => {
            if s.mode is Content && s.stack.len() > 0 {
                assert forall|i: int|
                    0 <= i < s2.store.elements.len() && s2.store.elements[i] is Filled implies (
                #[trigger] s2.store.elements[i]).value().spans_wf(input) by {
                    if i == s.stack.last().elem.index() {
                        assert(s.store.element_ok(s.stack.last().elem));
                        assert(s.store.elements[i].value().spans_wf(input));
                    } else {
                        assert(s2.store.elements[i] == s.store.elements[i]);
                    }
                }
            }
        },
        RawEvent::ProcessingInstruction { .. } => {
            if s.mode is Content && s.stack.len() > 0 {
                assert forall|i: int|
                    0 <= i < s2.store.elements.len() && s2.store.elements[i] is Filled implies (
                #[trigger] s2.store.elements[i]).value().spans_wf(input) by {
                    if i == s.stack.last().elem.index() {
                        assert(s.store.element_ok(s.stack.last().elem));
                        assert(s.store.elements[i].value().spans_wf(input));
                    } else {
                        assert(s2.store.elements[i] == s.store.elements[i]);
                    }
                }
            }
        },
        _ => {},
    }
}

/// A whole run preserves span well-formedness.
proof fn lemma_run_wf(
    input: Seq<u8>,
    pre: StoreV,
    doc: DocInfoItem,
    events: Seq<RawEvent>,
    lo: int,
    i: int,
    s0: MachineState,
    sf: MachineState,
)
    requires
        lo <= i,
        state_inv(pre, doc, s0),
        s0.store.elements.len() + (i - lo) <= usize::MAX,
        s0.store.comments.len() + (i - lo) <= usize::MAX,
        s0.store.pis.len() + (i - lo) <= usize::MAX,
        s0.store.spans_wf(input),
        spec_run(input, doc, events, lo, i, s0) == Ok::<MachineState, ParseError>(sf),
    ensures
        sf.store.spans_wf(input),
    decreases i - lo,
{
    if i > lo {
        let mid = spec_run(input, doc, events, lo, i - 1, s0)->Ok_0;
        lemma_run_wf(input, pre, doc, events, lo, i - 1, s0, mid);
        lemma_run_inv(input, pre, doc, events, lo, i - 1, s0, mid);
        lemma_step_wf(input, pre, doc, events[i - 1], mid, sf);
    }
}

/// What holds of every span in a successfully built store: each one the
/// build wrote was checked against the input, so the whole result is
/// span-well-formed whenever the store it started from was.
pub proof fn lemma_build_wf(
    input: Seq<u8>,
    events: Seq<RawEvent>,
    lex: Option<xmlparser::Error>,
    pre: StoreV,
    st: StoreV,
    doc: DocInfoItem,
)
    requires
        pre.spans_wf(input),
        pre.docs.len() <= usize::MAX,
        pre.elements.len() + events.len() <= usize::MAX,
        pre.comments.len() + events.len() <= usize::MAX,
        pre.pis.len() + events.len() <= usize::MAX,
        spec_build(input, events, lex, pre) == Ok::<(StoreV, DocInfoItem), ParseError>((st, doc)),
    ensures
        st.spans_wf(input),
{
    let dh = spec_doc_handle(pre);
    let s0 = spec_s0(pre);
    let i0 = spec_i0(events);
    let sf = spec_run(input, dh, events, i0, events.len() as int, s0)->Ok_0;
    assert(s0.store.spans_wf(input)) by {
        assert forall|i: int|
            0 <= i < s0.store.docs.len() && s0.store.docs[i] is Filled implies (
        #[trigger] s0.store.docs[i]).value().spans_wf(input) by {
            assert(i < pre.docs.len() ==> s0.store.docs[i] == pre.docs[i]);
        }
    }
    assert(state_inv(pre, dh, s0));
    lemma_run_wf(input, pre, dh, events, i0, events.len() as int, s0, sf);
    lemma_run_inv(input, pre, dh, events, i0, events.len() as int, s0, sf);
    DocInfoItem::lemma_mk(pre.sid, pre.docs.len() as int);
    assert forall|i: int|
        0 <= i < st.docs.len() && st.docs[i] is Filled implies (#[trigger] st.docs[i]).value()
        .spans_wf(input) by {
        if i != dh.index() {
            assert(st.docs[i] == sf.store.docs[i]);
        }
    }
}

/// Every span obtained from a span-well-formed store materializes against
/// the retained input: for the node kinds a parse creates, each span field
/// present satisfies exactly the condition under which [`Span::get`]
/// returns the denoted substring.
pub proof fn lemma_spans_materialize(
    input: &str,
    st: StoreV,
    elem: ElementInfoItem,
    comment: CommentInfoItem,
    pi: PIInfoItem,
)
    requires
        st.spans_wf(input.spec_bytes()),
    ensures
        st.element_ok(elem) ==> st.element_at(elem).local_name.ok_for(input),
        st.element_ok(elem) ==> (st.element_at(elem).prefix matches Some(p) ==> p.ok_for(input)),
        st.comment_ok(comment) ==> st.comment_at(comment).content.ok_for(input),
        st.pi_ok(pi) ==> st.pi_at(pi).target.ok_for(input),
        st.pi_ok(pi) ==> (st.pi_at(pi).content matches Some(c) ==> c.ok_for(input)),
{
}

} // verus!

verus! {

// ---------------------------------------------------------------------------
// The single-root law: every well-formed element tree, serialized to its
// event stream, is accepted by the machine, and the built graph mirrors
// the tree's nesting and order exactly.
// ---------------------------------------------------------------------------

/// One attribute occurrence inside an opening tag, as the tokenizer
/// reports it.
pub ghost struct AttrSpec {
    pub prefix: Span,
    pub local: Span,
    pub value: Span,
}

/// Whether an attribute is the default-namespace declaration: no prefix,
/// and `xmlns` as its whole name.
pub open spec fn attr_is_default(input: Seq<u8>, a: AttrSpec) -> bool {
    span_empty(a.prefix) && span_bytes(input, a.local) == xmlns_bytes()
}

/// Whether one of `attrs[..j]` is the default-namespace declaration.
pub open spec fn has_default_in(input: Seq<u8>, attrs: Seq<AttrSpec>, j: int) -> bool {
    exists|j2: int| 0 <= j2 < j && attr_is_default(input, #[trigger] attrs[j2])
}

/// Whether an attribute's name spans are well formed: the part the machine
/// materializes — the local name when the prefix is absent, the prefix
/// otherwise — denotes a substring of the input.
pub open spec fn attr_wf(input: Seq<u8>, a: AttrSpec) -> bool {
    if span_empty(a.prefix) {
        span_valid(input, a.local)
    } else {
        span_valid(input, a.prefix)
    }
}

/// Whether an attribute list is well formed: every name resolvable, and at
/// most one default-namespace declaration.
pub open spec fn attrs_wf(input: Seq<u8>, attrs: Seq<AttrSpec>) -> bool {
    &&& (forall|j: int| 0 <= j < attrs.len() ==> attr_wf(input, #[trigger] attrs[j]))
    &&& (forall|j1: int, j2: int|
        0 <= j1 < j2 < attrs.len() ==> !(attr_is_default(input, #[trigger] attrs[j1])
            && attr_is_default(input, #[trigger] attrs[j2])))
}

/// The event stream of the attributes `attrs[j..]`, in order.
pub open spec fn events_of_attrs(attrs: Seq<AttrSpec>, j: int) -> Seq<RawEvent>
    decreases attrs.len() - j,
{
    if j < 0 || j >= attrs.len() {
        Seq::empty()
    } else {
        seq![
            RawEvent::Attribute {
                prefix: attrs[j].prefix,
                local: attrs[j].local,
                value: attrs[j].value,
            },
        ] + events_of_attrs(attrs, j + 1)
    }
}

/// A well-formed piece of element content, as the tokenizer would report
/// it: an element with its lexical name spans, its attribute list and its
/// content in order, a comment, or a processing instruction.
pub ghost enum XmlNode {
    Element {
        prefix: Span,
        local: Span,
        attrs: Seq<AttrSpec>,
        self_close: bool,
        children: Seq<XmlNode>,
    },
    Comment { text: Span },
    PI { target: Span, content: Option<Span> },
}

/// The event stream of one node.
pub open spec fn events_of_node(n: XmlNode) -> Seq<RawEvent>
    decreases n, 0int, 0int,
{
    match n {
        XmlNode::Comment { text } => seq![RawEvent::Comment { text }],
        XmlNode::PI { target, content } => seq![
            RawEvent::ProcessingInstruction { target, content },
        ],
        XmlNode::Element { prefix, local, attrs, self_close, children } => {
            if self_close {
                seq![RawEvent::ElementStart { prefix, local }] + events_of_attrs(attrs, 0)
                    + seq![RawEvent::ElementEndEmpty]
            } else {
                seq![RawEvent::ElementStart { prefix, local }] + events_of_attrs(attrs, 0)
                    + seq![RawEvent::ElementEndOpen] + events_of_forest(children, 0) + seq![
                    RawEvent::ElementEndClose { prefix, local },
                ]
            }
        },
    }
}

/// The event stream of the nodes `ns[k..]`, in order.
pub open spec fn events_of_forest(ns: Seq<XmlNode>, k: int) -> Seq<RawEvent>
    decreases ns, 1int, ns.len() - k,
{
    if k < 0 || k >= ns.len() {
        Seq::empty()
    } else {
        events_of_node(ns[k]) + events_of_forest(ns, k + 1)
    }
}

/// Whether a node is well formed against the input: every lexical span it
/// carries denotes a substring, and a self-closing element has no content.
pub open spec fn node_wf(input: Seq<u8>, n: XmlNode) -> bool
    decreases n, 0int, 0int,
{
    match n {
        XmlNode::Comment { text } => span_valid(input, text),
        XmlNode::PI { target, content } => {
            &&& span_valid(input, target)
            &&& (content matches Some(c) ==> span_valid(input, c))
        },
        XmlNode::Element { prefix, local, attrs, self_close, children } => {
            &&& span_valid(input, prefix)
            &&& span_valid(input, local)
            &&& attrs_wf(input, attrs)
            &&& (self_close ==> children.len() == 0)
            &&& forest_wf(input, children, 0)
        },
    }
}

/// Whether the nodes `ns[k..]` are all well formed.
pub open spec fn forest_wf(input: Seq<u8>, ns: Seq<XmlNode>, k: int) -> bool
    decreases ns, 1int, ns.len() - k,
{
    if k < 0 || k >= ns.len() {
        true
    } else {
        node_wf(input, ns[k]) && forest_wf(input, ns, k + 1)
    }
}

/// The extent of the three tables the element-subtree machine appends to.
pub ghost struct TableLens {
    pub elements: int,
    pub comments: int,
    pub pis: int,
}

/// The extents of a store.
pub open spec fn lens_of(st: StoreV) -> TableLens {
    TableLens {
        elements: st.elements.len() as int,
        comments: st.comments.len() as int,
        pis: st.pis.len() as int,
    }
}

/// The child reference the next node will receive when built against `st`:
/// the first slot its subtree occupies.
pub open spec fn child_ref_of(n: XmlNode, st: StoreV) -> ElementChildInfoItem {
    match n {
        XmlNode::Element { .. } => ElementChildInfoItem::Element(
            ElementInfoItem::mk(st.sid, st.elements.len() as int),
        ),
        XmlNode::Comment { .. } => ElementChildInfoItem::Comment(
            CommentInfoItem::mk(st.sid, st.comments.len() as int),
        ),
        XmlNode::PI { .. } => ElementChildInfoItem::PI(
            PIInfoItem::mk(st.sid, st.pis.len() as int),
        ),
    }
}

/// Whether the graph node `c` in `st` mirrors the tree node `n` exactly —
/// same kind, same lexical fields, and children that mirror `n`'s content
/// in order — with every handle involved lying in the table ranges
/// `lo..hi`.
pub open spec fn mirrors_node(
    st: StoreV,
    c: ElementChildInfoItem,
    n: XmlNode,
    lo: TableLens,
    hi: TableLens,
) -> bool
    decreases n, 0int, 0int,
{
    match n {
        XmlNode::Comment { text } => {
            &&& c matches ElementChildInfoItem::Comment(h)
            &&& lo.comments <= c->Comment_0.index() < hi.comments
            &&& st.comment_ok(c->Comment_0)
            &&& st.comment_at(c->Comment_0).content == text
        },
        XmlNode::PI { target, content } => {
            &&& c matches ElementChildInfoItem::PI(h)
            &&& lo.pis <= c->PI_0.index() < hi.pis
            &&& st.pi_ok(c->PI_0)
            &&& st.pi_at(c->PI_0).target == target
            &&& st.pi_at(c->PI_0).content == content
        },
        XmlNode::Element { prefix, local, children, .. } => {
            &&& c matches ElementChildInfoItem::Element(h)
            &&& lo.elements <= c->Element_0.index() < hi.elements
            &&& st.element_ok(c->Element_0)
            &&& st.element_at(c->Element_0).local_name == local
            &&& st.element_at(c->Element_0).prefix == (if span_empty(prefix) {
                Option::<Span>::None
            } else {
                Option::<Span>::Some(prefix)
            })
            &&& mirrors_forest(st, st.element_at(c->Element_0).children, children, 0, lo, hi)
        },
    }
}

/// Whether `cs[k..]` mirrors `ns[k..]` member by member, in order.
pub open spec fn mirrors_forest(
    st: StoreV,
    cs: Seq<ElementChildInfoItem>,
    ns: Seq<XmlNode>,
    k: int,
    lo: TableLens,
    hi: TableLens,
) -> bool
    decreases ns, 1int, ns.len() - k,
{
    if k < 0 || k >= ns.len() {
        cs.len() == ns.len()
    } else {
        &&& cs.len() == ns.len()
        &&& mirrors_node(st, cs[k], ns[k], lo, hi)
        &&& mirrors_forest(st, cs, ns, k + 1, lo, hi)
    }
}

/// Running a span of events decomposes at any midpoint.
proof fn lemma_run_compose(
    input: Seq<u8>,
    doc: DocInfoItem,
    events: Seq<RawEvent>,
    lo: int,
    mid: int,
    hi: int,
    s0: MachineState,
)
    requires
        lo <= mid <= hi,
    ensures
        spec_run(input, doc, events, lo, hi, s0) == (match spec_run(
            input,
            doc,
            events,
            lo,
            mid,
            s0,
        ) {
            Ok(m) => spec_run(input, doc, events, mid, hi, m),
            Err(e) => Err(e),
        }),
    decreases hi - mid,
{
    if hi == mid {
    } else {
        lemma_run_compose(input, doc, events, lo, mid, hi - 1, s0);
    }
}

/// Running depends only on the events in the consumed span.
proof fn lemma_run_slice(
    input: Seq<u8>,
    doc: DocInfoItem,
    ev1: Seq<RawEvent>,
    lo1: int,
    ev2: Seq<RawEvent>,
    lo2: int,
    len: int,
    s0: MachineState,
)
    requires
        0 <= len,
        forall|k: int| 0 <= k < len ==> #[trigger] ev1[lo1 + k] == ev2[lo2 + k],
    ensures
        spec_run(input, doc, ev1, lo1, lo1 + len, s0) == spec_run(
            input,
            doc,
            ev2,
            lo2,
            lo2 + len,
            s0,
        ),
    decreases len,
{
    if len > 0 {
        lemma_run_slice(input, doc, ev1, lo1, ev2, lo2, len - 1, s0);
        assert(ev1[lo1 + (len - 1)] == ev2[lo2 + (len - 1)]);
    }
}

} // verus!

verus! {

/// Whether `st2` agrees with `st` on every slot in the ranges `lo..hi` of
/// the three content tables (and those ranges exist in both).
pub open spec fn agrees_on(st: StoreV, st2: StoreV, lo: TableLens, hi: TableLens) -> bool {
    &&& st2.sid == st.sid
    &&& hi.elements <= st.elements.len()
    &&& hi.elements <= st2.elements.len()
    &&& hi.comments <= st.comments.len()
    &&& hi.comments <= st2.comments.len()
    &&& hi.pis <= st.pis.len()
    &&& hi.pis <= st2.pis.len()
    &&& (forall|j: int| lo.elements <= j < hi.elements ==> #[trigger] st2.elements[j]
        == st.elements[j])
    &&& (forall|j: int| lo.comments <= j < hi.comments ==> #[trigger] st2.comments[j]
        == st.comments[j])
    &&& (forall|j: int| lo.pis <= j < hi.pis ==> #[trigger] st2.pis[j] == st.pis[j])
}

/// A mirror is stable under any store change that leaves its slot ranges
/// alone, and its ranges may be widened.
proof fn lemma_mirrors_node_preserved(
    st: StoreV,
    st2: StoreV,
    c: ElementChildInfoItem,
    n: XmlNode,
    lo: TableLens,
    hi: TableLens,
    lo2: TableLens,
    hi2: TableLens,
)
    requires
        mirrors_node(st, c, n, lo, hi),
        agrees_on(st, st2, lo, hi),
        lo2.elements <= lo.elements,
        hi.elements <= hi2.elements,
        lo2.comments <= lo.comments,
        hi.comments <= hi2.comments,
        lo2.pis <= lo.pis,
        hi.pis <= hi2.pis,
    ensures
        mirrors_node(st2, c, n, lo2, hi2),
    decreases n, 0int, 0int,
{
    match n {
        XmlNode::Element { children, .. } => {
            let h = c->Element_0;
            assert(st2.elements[h.index()] == st.elements[h.index()]);
            lemma_mirrors_forest_preserved(
                st,
                st2,
                st.element_at(h).children,
                children,
                0,
                lo,
                hi,
                lo2,
                hi2,
            );
        },
        XmlNode::Comment { .. } => {
            let h = c->Comment_0;
            assert(st2.comments[h.index()] == st.comments[h.index()]);
        },
        XmlNode::PI { .. } => {
            let h = c->PI_0;
            assert(st2.pis[h.index()] == st.pis[h.index()]);
        },
    }
}

/// As [`lemma_mirrors_node_preserved`], member by member.
proof fn lemma_mirrors_forest_preserved(
    st: StoreV,
    st2: StoreV,
    cs: Seq<ElementChildInfoItem>,
    ns: Seq<XmlNode>,
    k: int,
    lo: TableLens,
    hi: TableLens,
    lo2: TableLens,
    hi2: TableLens,
)
    requires
        mirrors_forest(st, cs, ns, k, lo, hi),
        agrees_on(st, st2, lo, hi),
        lo2.elements <= lo.elements,
        hi.elements <= hi2.elements,
        lo2.comments <= lo.comments,
        hi.comments <= hi2.comments,
        lo2.pis <= lo.pis,
        hi.pis <= hi2.pis,
    ensures
        mirrors_forest(st2, cs, ns, k, lo2, hi2),
    decreases ns, 1int, ns.len() - k,
{
    if 0 <= k < ns.len() {
        lemma_mirrors_node_preserved(st, st2, cs[k], ns[k], lo, hi, lo2, hi2);
        lemma_mirrors_forest_preserved(st, st2, cs, ns, k + 1, lo, hi, lo2, hi2);
    }
}

} // verus!

verus! {

/// `mirrors_forest` reads nothing below position `k`.
proof fn lemma_mirrors_forest_stable_below(
    st: StoreV,
    cs: Seq<ElementChildInfoItem>,
    cs2: Seq<ElementChildInfoItem>,
    ns: Seq<XmlNode>,
    k: int,
    lo: TableLens,
    hi: TableLens,
)
    requires
        mirrors_forest(st, cs, ns, k, lo, hi),
        cs2.len() == cs.len(),
        forall|j: int| k <= j < cs.len() ==> #[trigger] cs2[j] == cs[j],
    ensures
        mirrors_forest(st, cs2, ns, k, lo, hi),
    decreases ns, 1int, ns.len() - k,
{
    if 0 <= k < ns.len() {
        lemma_mirrors_forest_stable_below(st, cs, cs2, ns, k + 1, lo, hi);
    }
}

/// Consuming an attribute list's events keeps the machine inside the same
/// opening tag: nothing is stored, and the default-namespace flag ends up
/// recording whether the list declares a default namespace.
proof fn lemma_attrs_run(
    input: Seq<u8>,
    doc: DocInfoItem,
    attrs: Seq<AttrSpec>,
    j: int,
    s: MachineState,
)
    requires
        0 <= j <= attrs.len(),
        attrs_wf(input, attrs),
        s.mode is Attrs,
        s.mode->Attrs_seen_default_ns == has_default_in(input, attrs, j),
    ensures
        ({
            let ev = events_of_attrs(attrs, j);
            let r = spec_run(input, doc, ev, 0, ev.len() as int, s);
            &&& r is Ok
            &&& r->Ok_0 == MachineState {
                mode: BuildMode::Attrs {
                    prefix: s.mode->Attrs_prefix,
                    local: s.mode->Attrs_local,
                    seen_default_ns: has_default_in(input, attrs, attrs.len() as int),
                },
                ..s
            }
        }),
    decreases attrs.len() - j,
{
    let ev = events_of_attrs(attrs, j);
    if j >= attrs.len() {
        assert(ev =~= Seq::<RawEvent>::empty());
        assert(spec_run(input, doc, ev, 0, 0, s) == Ok::<MachineState, ParseError>(s));
        assert(s.mode == BuildMode::Attrs {
            prefix: s.mode->Attrs_prefix,
            local: s.mode->Attrs_local,
            seen_default_ns: s.mode->Attrs_seen_default_ns,
        });
        assert(s == MachineState { mode: s.mode, ..s });
    } else {
        let a = attrs[j];
        let e2 = events_of_attrs(attrs, j + 1);
        assert(ev == seq![
            RawEvent::Attribute { prefix: a.prefix, local: a.local, value: a.value },
        ] + e2);
        assert(forall|i: int| 0 <= i < e2.len() ==> ev[1 + i] == #[trigger] e2[i]);
        assert(attr_wf(input, a));
        if attr_is_default(input, a) {
            assert(!s.mode->Attrs_seen_default_ns) by {
                if has_default_in(input, attrs, j) {
                    let j2 = choose|j2: int|
                        0 <= j2 < j && attr_is_default(input, #[trigger] attrs[j2]);
                    assert(!(attr_is_default(input, attrs[j2]) && attr_is_default(
                        input,
                        attrs[j],
                    )));
                }
            }
            assert(has_default_in(input, attrs, j + 1)) by {
                assert(attr_is_default(input, attrs[j]));
            }
        } else {
            assert(has_default_in(input, attrs, j + 1) == has_default_in(input, attrs, j)) by {
                if has_default_in(input, attrs, j + 1) {
                    let j2 = choose|j2: int|
                        0 <= j2 < j + 1 && attr_is_default(input, #[trigger] attrs[j2]);
                    assert(j2 < j);
                    assert(has_default_in(input, attrs, j));
                }
            }
        }
        let r1 = spec_step(input, doc, ev[0], s);
        assert(r1 is Ok);
        let s1 = r1->Ok_0;
        assert(s1.mode is Attrs);
        assert(s1.mode->Attrs_seen_default_ns == has_default_in(input, attrs, j + 1));
        assert(spec_run(input, doc, ev, 0, 0, s) == Ok::<MachineState, ParseError>(s));
        assert(spec_run(input, doc, ev, 0, 1, s) == Ok::<MachineState, ParseError>(s1));
        lemma_attrs_run(input, doc, attrs, j + 1, s1);
        lemma_run_slice(input, doc, e2, 0, ev, 1, e2.len() as int, s1);
        lemma_run_compose(input, doc, ev, 0, 1, ev.len() as int, s);
    }
}

/// Consuming one node's events from element content appends exactly one
/// mirroring child to the open element on top of the stack, grows the
/// store only with that node's subtree, and returns to the same stack.
proof fn lemma_node_run(
    input: Seq<u8>,
    pre: StoreV,
    doc: DocInfoItem,
    n: XmlNode,
    s: MachineState,
)
    requires
        state_inv(pre, doc, s),
        s.mode is Content,
        s.stack.len() > 0,
        node_wf(input, n),
        s.store.elements.len() + events_of_node(n).len() <= usize::MAX,
        s.store.comments.len() + events_of_node(n).len() <= usize::MAX,
        s.store.pis.len() + events_of_node(n).len() <= usize::MAX,
    ensures
        ({
            let ev = events_of_node(n);
            let r = spec_run(input, doc, ev, 0, ev.len() as int, s);
            let p = s.stack.last().elem;
            &&& r is Ok
            &&& r->Ok_0.mode is Content
            &&& r->Ok_0.stack == s.stack
            &&& r->Ok_0.root == s.root
            &&& r->Ok_0.store.sid == s.store.sid
            &&& r->Ok_0.store.elements.len() >= s.store.elements.len()
            &&& r->Ok_0.store.comments.len() >= s.store.comments.len()
            &&& r->Ok_0.store.pis.len() >= s.store.pis.len()
            &&& (forall|j: int|
                0 <= j < s.store.elements.len() && j != p.index()
                    ==> #[trigger] r->Ok_0.store.elements[j] == s.store.elements[j])
            &&& (forall|j: int|
                0 <= j < s.store.comments.len() ==> #[trigger] r->Ok_0.store.comments[j]
                    == s.store.comments[j])
            &&& (forall|j: int|
                0 <= j < s.store.pis.len() ==> #[trigger] r->Ok_0.store.pis[j]
                    == s.store.pis[j])
            &&& r->Ok_0.store.elements[p.index()] == Slot::Filled(ElementView {
                children: s.store.element_at(p).children.push(child_ref_of(n, s.store)),
                ..s.store.element_at(p)
            })
            &&& mirrors_node(
                r->Ok_0.store,
                child_ref_of(n, s.store),
                n,
                lens_of(s.store),
                lens_of(r->Ok_0.store),
            )
        }),
    decreases n, 0int, 0int,
{
    let p = s.stack.last().elem;
    assert(s.store.element_ok(p));
    match n {
        XmlNode::Comment { text } => {
            let ev = events_of_node(n);
            assert(ev =~= seq![RawEvent::Comment { text }]);
            let h = CommentInfoItem::mk(s.store.sid, s.store.comments.len() as int);
            CommentInfoItem::lemma_mk(s.store.sid, s.store.comments.len() as int);
            assert(spec_run(input, doc, ev, 0, 0, s) == Ok::<MachineState, ParseError>(s));
            assert(spec_run(input, doc, ev, 0, 1, s) == spec_step(input, doc, ev[0], s));
        },
        XmlNode::PI { target, content } => {
            let ev = events_of_node(n);
            assert(ev =~= seq![RawEvent::ProcessingInstruction { target, content }]);
            let h = PIInfoItem::mk(s.store.sid, s.store.pis.len() as int);
            PIInfoItem::lemma_mk(s.store.sid, s.store.pis.len() as int);
            assert(spec_run(input, doc, ev, 0, 0, s) == Ok::<MachineState, ParseError>(s));
            assert(spec_run(input, doc, ev, 0, 1, s) == spec_step(input, doc, ev[0], s));
        },
        XmlNode::Element { prefix, local, attrs, self_close, children } => {
            let ev = events_of_node(n);
            let h = ElementInfoItem::mk(s.store.sid, s.store.elements.len() as int);
            ElementInfoItem::lemma_mk(s.store.sid, s.store.elements.len() as int);
            let a_ev = events_of_attrs(attrs, 0);
            let a_end: int = 1 + a_ev.len() as int;
            let total: int = ev.len() as int;

            // The opening tag name, then the attribute list, which stores
            // nothing.
            assert(ev[0] == RawEvent::ElementStart { prefix, local });
            let s1 = spec_step(input, doc, ev[0], s)->Ok_0;
            assert(spec_run(input, doc, ev, 0, 0, s) == Ok::<MachineState, ParseError>(s));
            assert(spec_step(input, doc, ev[0], s) == Ok::<MachineState, ParseError>(s1));
            assert(spec_run(input, doc, ev, 0, 1, s) == Ok::<MachineState, ParseError>(s1));
            assert(s1.mode == BuildMode::Attrs { prefix, local, seen_default_ns: false });
            assert(!has_default_in(input, attrs, 0));
            lemma_attrs_run(input, doc, attrs, 0, s1);
            lemma_run_slice(input, doc, a_ev, 0, ev, 1, a_ev.len() as int, s1);
            lemma_run_compose(input, doc, ev, 0, 1, a_end, s);
            let s1b = spec_run(input, doc, a_ev, 0, a_ev.len() as int, s1)->Ok_0;
            assert(spec_run(input, doc, ev, 0, a_end, s) == Ok::<MachineState, ParseError>(s1b));
            assert(s1b.stack == s.stack && s1b.store == s.store && s1b.root == s.root);
            assert(s1b.mode is Attrs && s1b.mode->Attrs_prefix == prefix
                && s1b.mode->Attrs_local == local);
            assert(state_inv(pre, doc, s1b));

            if self_close {
                assert(ev == seq![RawEvent::ElementStart { prefix, local }] + a_ev + seq![
                    RawEvent::ElementEndEmpty,
                ]);
                assert(total == a_end + 1);
                assert(ev[a_end] == RawEvent::ElementEndEmpty);
                let r2 = spec_step(input, doc, ev[a_end], s1b);
                assert(r2 is Ok);
                let s2 = r2->Ok_0;
                lemma_run_compose(input, doc, ev, 0, a_end, total, s);
                assert(spec_run(input, doc, ev, 0, total, s) == Ok::<MachineState, ParseError>(
                    s2,
                ));
                assert(s2.store.elements[p.index()] == Slot::Filled(ElementView {
                    children: s.store.element_at(p).children.push(ElementChildInfoItem::Element(
                        h,
                    )),
                    ..s.store.element_at(p)
                }));
                assert(s2.store.element_ok(h));
                assert(mirrors_forest(
                    s2.store,
                    s2.store.element_at(h).children,
                    children,
                    0,
                    lens_of(s.store),
                    lens_of(s2.store),
                ));
            } else {
                let f_ev = events_of_forest(children, 0);
                let m2: int = a_end + 1 + f_ev.len() as int;
                assert(ev == seq![RawEvent::ElementStart { prefix, local }] + a_ev + seq![
                    RawEvent::ElementEndOpen,
                ] + f_ev + seq![RawEvent::ElementEndClose { prefix, local }]);
                assert(total == m2 + 1);
                assert(ev[a_end] == RawEvent::ElementEndOpen);
                assert(forall|j: int|
                    0 <= j < f_ev.len() ==> ev[a_end + 1 + j] == #[trigger] f_ev[j]);
                assert(ev[m2] == RawEvent::ElementEndClose { prefix, local });

                // The tag closes open: the element is created, appended to
                // the parent, and pushed.
                let r2 = spec_step(input, doc, ev[a_end], s1b);
                assert(r2 is Ok);
                let s3 = r2->Ok_0;
                lemma_run_compose(input, doc, ev, 0, a_end, a_end + 1, s);
                assert(spec_run(input, doc, ev, 0, a_end + 1, s)
                    == Ok::<MachineState, ParseError>(s3));
                lemma_step_inv(input, pre, doc, ev[a_end], s1b, s3);
                assert(s3.stack.last().elem == h);
                assert(s3.store.elements.len() == s.store.elements.len() + 1);

                // The content: the forest lemma, transported to this event
                // sequence.
                lemma_forest_run(input, pre, doc, children, 0, s3);
                lemma_run_slice(input, doc, f_ev, 0, ev, a_end + 1, f_ev.len() as int, s3);
                lemma_run_compose(input, doc, ev, 0, a_end + 1, m2, s);
                let rf = spec_run(input, doc, f_ev, 0, f_ev.len() as int, s3);
                assert(rf is Ok);
                let s4 = rf->Ok_0;
                assert(spec_run(input, doc, ev, 0, m2, s) == Ok::<MachineState, ParseError>(s4));
                let cs = choose|cs: Seq<ElementChildInfoItem>|
                    #[trigger] forest_out(
                        s3,
                        s4,
                        children,
                        0,
                        cs,
                        lens_of(s3.store),
                        lens_of(s4.store),
                    );
                assert(forest_out(s3, s4, children, 0, cs, lens_of(s3.store), lens_of(s4.store)));

                // The closing tag: the frame's name is the tag's name, so
                // the pop succeeds and the stack returns to the caller's.
                lemma_run_compose(input, doc, ev, 0, m2, total, s);
                let r5 = spec_step(input, doc, ev[m2], s4);
                assert(s4.stack.last() == OpenFrame { elem: h, prefix, local });
                assert(r5 is Ok);
                let s5 = r5->Ok_0;
                assert(spec_run(input, doc, ev, 0, total, s) == Ok::<MachineState, ParseError>(
                    s5,
                ));
                assert(s5.stack =~= s.stack);

                // The mirror: the element's recorded children are exactly
                // the forest's refs, each mirroring its node.
                assert(s4.store.elements[h.index()] == Slot::Filled(ElementView {
                    children: s3.store.element_at(h).children + cs.subrange(
                        0,
                        children.len() as int,
                    ),
                    ..s3.store.element_at(h)
                }));
                assert(s3.store.element_at(h).children =~= Seq::<ElementChildInfoItem>::empty());
                assert(s4.store.element_at(h).children =~= cs);
                lemma_mirrors_forest_preserved(
                    s4.store,
                    s4.store,
                    cs,
                    children,
                    0,
                    lens_of(s3.store),
                    lens_of(s4.store),
                    lens_of(s.store),
                    lens_of(s4.store),
                );
                assert(mirrors_node(
                    s5.store,
                    ElementChildInfoItem::Element(h),
                    n,
                    lens_of(s.store),
                    lens_of(s5.store),
                ));
                assert(s5.store.elements[p.index()] == Slot::Filled(ElementView {
                    children: s.store.element_at(p).children.push(ElementChildInfoItem::Element(
                        h,
                    )),
                    ..s.store.element_at(p)
                }));
            }
        },
    }
}

/// What consuming the events of `ns[k..]` from element content does: the
/// result of the forest lemma, existentially packaged.
pub open spec fn forest_out(
    s: MachineState,
    s2: MachineState,
    ns: Seq<XmlNode>,
    k: int,
    cs: Seq<ElementChildInfoItem>,
    lo: TableLens,
    hi: TableLens,
) -> bool {
    let p = s.stack.last().elem;
    &&& cs.len() == ns.len()
    &&& s2.mode is Content
    &&& s2.stack == s.stack
    &&& s2.root == s.root
    &&& s2.store.sid == s.store.sid
    &&& s2.store.elements.len() >= s.store.elements.len()
    &&& s2.store.comments.len() >= s.store.comments.len()
    &&& s2.store.pis.len() >= s.store.pis.len()
    &&& (forall|j: int|
        0 <= j < s.store.elements.len() && j != p.index() ==> #[trigger] s2.store.elements[j]
            == s.store.elements[j])
    &&& (forall|j: int|
        0 <= j < s.store.comments.len() ==> #[trigger] s2.store.comments[j]
            == s.store.comments[j])
    &&& (forall|j: int|
        0 <= j < s.store.pis.len() ==> #[trigger] s2.store.pis[j] == s.store.pis[j])
    &&& s2.store.elements[p.index()] == Slot::Filled(ElementView {
        children: s.store.element_at(p).children + cs.subrange(k, ns.len() as int),
        ..s.store.element_at(p)
    })
    &&& mirrors_forest(s2.store, cs, ns, k, lo, hi)
}

/// Consuming the events of the nodes `ns[k..]` from element content
/// appends one mirroring child per node to the open element on top of the
/// stack, in order.
proof fn lemma_forest_run(
    input: Seq<u8>,
    pre: StoreV,
    doc: DocInfoItem,
    ns: Seq<XmlNode>,
    k: int,
    s: MachineState,
)
    requires
        state_inv(pre, doc, s),
        s.mode is Content,
        s.stack.len() > 0,
        0 <= k <= ns.len(),
        forest_wf(input, ns, k),
        s.store.elements.len() + events_of_forest(ns, k).len() <= usize::MAX,
        s.store.comments.len() + events_of_forest(ns, k).len() <= usize::MAX,
        s.store.pis.len() + events_of_forest(ns, k).len() <= usize::MAX,
    ensures
        ({
            let ev = events_of_forest(ns, k);
            let r = spec_run(input, doc, ev, 0, ev.len() as int, s);
            &&& r is Ok
            &&& exists|cs: Seq<ElementChildInfoItem>|
                forest_out(s, r->Ok_0, ns, k, cs, lens_of(s.store), lens_of(r->Ok_0.store))
        }),
    decreases ns, 1int, ns.len() - k,
{
    let p = s.stack.last().elem;
    let ev = events_of_forest(ns, k);
    if k >= ns.len() {
        assert(ev =~= Seq::<RawEvent>::empty());
        assert(spec_run(input, doc, ev, 0, 0, s) == Ok::<MachineState, ParseError>(s));
        let cs = Seq::new(ns.len() as nat, |j: int| ElementChildInfoItem::Element(
            ElementInfoItem::mk(s.store.sid, 0),
        ));
        assert(cs.subrange(k, ns.len() as int) =~= Seq::<ElementChildInfoItem>::empty());
        assert(s.store.element_at(p).children + cs.subrange(k, ns.len() as int) =~= s.store
            .element_at(p).children);
        assert(s.store.elements[p.index()] == Slot::Filled(ElementView {
            children: s.store.element_at(p).children + cs.subrange(k, ns.len() as int),
            ..s.store.element_at(p)
        }));
        assert(forest_out(s, s, ns, k, cs, lens_of(s.store), lens_of(s.store)));
    } else {
        let e1 = events_of_node(ns[k]);
        let e2 = events_of_forest(ns, k + 1);
        assert(ev == e1 + e2);
        assert(forall|j: int| 0 <= j < e1.len() ==> ev[j] == #[trigger] e1[j]);
        assert(forall|j: int|
            0 <= j < e2.len() ==> ev[e1.len() + j] == #[trigger] e2[j]);

        // The first node.
        lemma_node_run(input, pre, doc, ns[k], s);
        lemma_run_slice(input, doc, e1, 0, ev, 0, e1.len() as int, s);
        let s2 = spec_run(input, doc, ev, 0, e1.len() as int, s)->Ok_0;
        let ck = child_ref_of(ns[k], s.store);
        lemma_run_inv(input, pre, doc, e1, 0, e1.len() as int, s, s2);

        // The rest.
        lemma_forest_run(input, pre, doc, ns, k + 1, s2);
        lemma_run_slice(input, doc, e2, 0, ev, e1.len() as int, e2.len() as int, s2);
        lemma_run_compose(input, doc, ev, 0, e1.len() as int, ev.len() as int, s);
        let r = spec_run(input, doc, ev, 0, ev.len() as int, s);
        assert(r is Ok);
        let s3 = r->Ok_0;
        let cs2 = choose|cs2: Seq<ElementChildInfoItem>|
            #[trigger] forest_out(s2, s3, ns, k + 1, cs2, lens_of(s2.store), lens_of(s3.store));
        assert(forest_out(s2, s3, ns, k + 1, cs2, lens_of(s2.store), lens_of(s3.store)));

        // Assemble: the first child's mirror survives the rest of the run,
        // and the parent's list grows by exactly the refs in order.
        let cs = cs2.update(k, ck);
        assert(agrees_on(s2.store, s3.store, lens_of(s.store), lens_of(s2.store))) by {
            assert(p.index() < s.store.elements.len());
            assert forall|j: int|
                lens_of(s.store).elements <= j < lens_of(s2.store).elements implies #[trigger] s3
                .store.elements[j] == s2.store.elements[j] by {
                assert(j != p.index());
            }
        }
        lemma_mirrors_node_preserved(
            s2.store,
            s3.store,
            ck,
            ns[k],
            lens_of(s.store),
            lens_of(s2.store),
            lens_of(s.store),
            lens_of(s3.store),
        );
        lemma_mirrors_forest_preserved(
            s3.store,
            s3.store,
            cs2,
            ns,
            k + 1,
            lens_of(s2.store),
            lens_of(s3.store),
            lens_of(s.store),
            lens_of(s3.store),
        );
        lemma_mirrors_forest_stable_below(
            s3.store,
            cs2,
            cs,
            ns,
            k + 1,
            lens_of(s.store),
            lens_of(s3.store),
        );
        assert(mirrors_forest(s3.store, cs, ns, k, lens_of(s.store), lens_of(s3.store)));
        assert(s3.store.elements[p.index()] == Slot::Filled(ElementView {
            children: s.store.element_at(p).children + cs.subrange(k, ns.len() as int),
            ..s.store.element_at(p)
        })) by {
            assert(s2.store.element_at(p).children =~= s.store.element_at(p).children.push(ck));
            assert(s2.store.element_at(p).children + cs2.subrange(k + 1, ns.len() as int)
                =~= s.store.element_at(p).children + cs.subrange(k, ns.len() as int));
            assert(ElementView {
                children: s2.store.element_at(p).children + cs2.subrange(k + 1, ns.len() as int),
                ..s2.store.element_at(p)
            } =~= ElementView {
                children: s.store.element_at(p).children + cs.subrange(k, ns.len() as int),
                ..s.store.element_at(p)
            });
        }
        assert(forest_out(s, s3, ns, k, cs, lens_of(s.store), lens_of(s3.store)));
    }
}

} // verus!

verus! {

/// Consuming a well-formed root element tree's events at document level
/// completes the root subtree: the machine ends past the root element with
/// the root handle recorded, and the built subtree mirrors the tree.
proof fn lemma_root_tree_run(
    input: Seq<u8>,
    pre: StoreV,
    doc: DocInfoItem,
    root: XmlNode,
    s0: MachineState,
)
    requires
        state_inv(pre, doc, s0),
        s0.mode is AfterXmlDecl || s0.mode is AfterDTD,
        s0.stack.len() == 0,
        root is Element,
        node_wf(input, root),
        s0.store.elements.len() + events_of_node(root).len() <= usize::MAX,
        s0.store.comments.len() + events_of_node(root).len() <= usize::MAX,
        s0.store.pis.len() + events_of_node(root).len() <= usize::MAX,
    ensures
        ({
            let ev = events_of_node(root);
            let r = spec_run(input, doc, ev, 0, ev.len() as int, s0);
            let h = ElementInfoItem::mk(s0.store.sid, s0.store.elements.len() as int);
            &&& r is Ok
            &&& r->Ok_0.mode is AfterRootElement
            &&& r->Ok_0.stack == s0.stack
            &&& r->Ok_0.root == Some(h)
            &&& mirrors_node(
                r->Ok_0.store,
                ElementChildInfoItem::Element(h),
                root,
                lens_of(s0.store),
                lens_of(r->Ok_0.store),
            )
        }),
{
    let ev = events_of_node(root);
    let total = ev.len() as int;
    let prefix = root->Element_prefix;
    let local = root->Element_local;
    let attrs = root->Element_attrs;
    let self_close = root->Element_self_close;
    let children = root->Element_children;
    let h = ElementInfoItem::mk(s0.store.sid, s0.store.elements.len() as int);
    ElementInfoItem::lemma_mk(s0.store.sid, s0.store.elements.len() as int);
    assert(ev[0] == RawEvent::ElementStart { prefix, local });
    let a_ev = events_of_attrs(attrs, 0);
    let a_end: int = 1 + a_ev.len() as int;

    // The opening tag name, then the attribute list, which stores nothing.
    let s1 = spec_step(input, doc, ev[0], s0)->Ok_0;
    assert(spec_run(input, doc, ev, 0, 0, s0) == Ok::<MachineState, ParseError>(s0));
    assert(spec_step(input, doc, ev[0], s0) == Ok::<MachineState, ParseError>(s1));
    assert(spec_run(input, doc, ev, 0, 1, s0) == Ok::<MachineState, ParseError>(s1));
    assert(s1.mode == BuildMode::Attrs { prefix, local, seen_default_ns: false });
    assert(!has_default_in(input, attrs, 0));
    lemma_attrs_run(input, doc, attrs, 0, s1);
    lemma_run_slice(input, doc, a_ev, 0, ev, 1, a_ev.len() as int, s1);
    lemma_run_compose(input, doc, ev, 0, 1, a_end, s0);
    let s1b = spec_run(input, doc, a_ev, 0, a_ev.len() as int, s1)->Ok_0;
    assert(spec_run(input, doc, ev, 0, a_end, s0) == Ok::<MachineState, ParseError>(s1b));
    assert(s1b.stack == s0.stack && s1b.store == s0.store && s1b.root == s0.root);
    assert(s1b.mode is Attrs && s1b.mode->Attrs_prefix == prefix && s1b.mode->Attrs_local
        == local);
    assert(state_inv(pre, doc, s1b));

    if self_close {
        assert(ev == seq![RawEvent::ElementStart { prefix, local }] + a_ev + seq![
            RawEvent::ElementEndEmpty,
        ]);
        assert(total == a_end + 1);
        assert(ev[a_end] == RawEvent::ElementEndEmpty);
        let r2 = spec_step(input, doc, ev[a_end], s1b);
        assert(r2 is Ok);
        let sf = r2->Ok_0;
        lemma_run_compose(input, doc, ev, 0, a_end, total, s0);
        assert(spec_run(input, doc, ev, 0, total, s0) == Ok::<MachineState, ParseError>(sf));
        assert(sf.mode is AfterRootElement);
        assert(sf.root == Some(h));
        assert(mirrors_node(
            sf.store,
            ElementChildInfoItem::Element(h),
            root,
            lens_of(s0.store),
            lens_of(sf.store),
        ));
    } else {
        let f_ev = events_of_forest(children, 0);
        let m2: int = a_end + 1 + f_ev.len() as int;
        assert(ev == seq![RawEvent::ElementStart { prefix, local }] + a_ev + seq![
            RawEvent::ElementEndOpen,
        ] + f_ev + seq![RawEvent::ElementEndClose { prefix, local }]);
        assert(total == m2 + 1);
        assert(ev[a_end] == RawEvent::ElementEndOpen);
        assert(forall|j: int| 0 <= j < f_ev.len() ==> ev[a_end + 1 + j] == #[trigger] f_ev[j]);
        assert(ev[m2] == RawEvent::ElementEndClose { prefix, local });

        let r2 = spec_step(input, doc, ev[a_end], s1b);
        assert(r2 is Ok);
        let s3 = r2->Ok_0;
        lemma_run_compose(input, doc, ev, 0, a_end, a_end + 1, s0);
        assert(spec_run(input, doc, ev, 0, a_end + 1, s0) == Ok::<MachineState, ParseError>(s3));
        lemma_step_inv(input, pre, doc, ev[a_end], s1b, s3);
        assert(s3.mode is Content);
        assert(s3.stack.last().elem == h);
        assert(s3.root == Some(h));

        lemma_forest_run(input, pre, doc, children, 0, s3);
        lemma_run_slice(input, doc, f_ev, 0, ev, a_end + 1, f_ev.len() as int, s3);
        lemma_run_compose(input, doc, ev, 0, a_end + 1, m2, s0);
        let s4 = spec_run(input, doc, f_ev, 0, f_ev.len() as int, s3)->Ok_0;
        assert(spec_run(input, doc, ev, 0, m2, s0) == Ok::<MachineState, ParseError>(s4));
        let cs = choose|cs: Seq<ElementChildInfoItem>|
            #[trigger] forest_out(s3, s4, children, 0, cs, lens_of(s3.store), lens_of(s4.store));
        assert(forest_out(s3, s4, children, 0, cs, lens_of(s3.store), lens_of(s4.store)));

        lemma_run_compose(input, doc, ev, 0, m2, total, s0);
        let r5 = spec_step(input, doc, ev[m2], s4);
        assert(s4.stack.last() == OpenFrame { elem: h, prefix, local });
        assert(s4.stack.len() == 1);
        assert(r5 is Ok);
        let sf = r5->Ok_0;
        assert(spec_run(input, doc, ev, 0, total, s0) == Ok::<MachineState, ParseError>(sf));
        assert(sf.mode is AfterRootElement);
        assert(sf.root == Some(h));
        assert(sf.stack =~= s0.stack);

        assert(s4.store.elements[h.index()] == Slot::Filled(ElementView {
            children: s3.store.element_at(h).children + cs.subrange(0, children.len() as int),
            ..s3.store.element_at(h)
        }));
        assert(s3.store.element_at(h).children =~= Seq::<ElementChildInfoItem>::empty());
        assert(s4.store.element_at(h).children =~= cs);
        lemma_mirrors_forest_preserved(
            s4.store,
            s4.store,
            cs,
            children,
            0,
            lens_of(s3.store),
            lens_of(s4.store),
            lens_of(s0.store),
            lens_of(s4.store),
        );
        assert(mirrors_node(
            sf.store,
            ElementChildInfoItem::Element(h),
            root,
            lens_of(s0.store),
            lens_of(sf.store),
        ));
    }
}

/// For every well-formed single-root input — one well-formed element tree,
/// as the tokenizer reports it — the build succeeds, and the resulting
/// document's root element mirrors the tree's tag nesting and order
/// exactly: same kinds, same lexical names, same children in the same
/// order, all the way down.
#[verifier::rlimit(80)]
#[verifier::spinoff_prover]
pub proof fn lemma_single_root_parses(input: Seq<u8>, root: XmlNode, pre: StoreV)
    requires
        root is Element,
        node_wf(input, root),
        pre.docs.len() <= usize::MAX,
        pre.elements.len() + events_of_node(root).len() <= usize::MAX,
        pre.comments.len() + events_of_node(root).len() <= usize::MAX,
        pre.pis.len() + events_of_node(root).len() <= usize::MAX,
    ensures
        ({
            let r = spec_build(input, events_of_node(root), None, pre);
            &&& r is Ok
            &&& r->Ok_0.0.doc_ok(r->Ok_0.1)
            &&& mirrors_node(
                r->Ok_0.0,
                ElementChildInfoItem::Element(r->Ok_0.0.doc_at(r->Ok_0.1).document_element),
                root,
                lens_of(spec_s0(pre).store),
                lens_of(r->Ok_0.0),
            )
        }),
{
    let ev = events_of_node(root);
    let doc = spec_doc_handle(pre);
    let s0 = spec_s0(pre);
    DocInfoItem::lemma_mk(pre.sid, pre.docs.len() as int);
    assert(state_inv(pre, doc, s0));
    assert(ev[0] == RawEvent::ElementStart {
        prefix: root->Element_prefix,
        local: root->Element_local,
    });
    assert(!spec_has_decl(ev));
    lemma_root_tree_run(input, pre, doc, root, s0);
    let sf = spec_run(input, doc, ev, 0, ev.len() as int, s0)->Ok_0;
    lemma_run_inv(input, pre, doc, ev, 0, ev.len() as int, s0, sf);
    let built = spec_build(input, ev, None, pre);
    assert(built is Ok);
    let h = ElementInfoItem::mk(s0.store.sid, s0.store.elements.len() as int);
    let st = built->Ok_0.0;
    assert(st.doc_ok(doc));
    assert(st.doc_at(doc).document_element == h);
    lemma_mirrors_node_preserved(
        sf.store,
        st,
        ElementChildInfoItem::Element(h),
        root,
        lens_of(s0.store),
        lens_of(sf.store),
        lens_of(s0.store),
        lens_of(st),
    );
}

/// As [`lemma_single_root_parses`], for an input that opens with an XML
/// declaration before its root element tree: the build succeeds, records
/// the declared fields, and the root element mirrors the tree exactly.
#[verifier::rlimit(80)]
#[verifier::spinoff_prover]
pub proof fn lemma_declared_single_root_parses(
    input: Seq<u8>,
    decl: RawEvent,
    root: XmlNode,
    pre: StoreV,
)
    requires
        decl is Declaration,
        spec_decl_ok(input, decl),
        root is Element,
        node_wf(input, root),
        pre.docs.len() <= usize::MAX,
        pre.elements.len() + events_of_node(root).len() <= usize::MAX,
        pre.comments.len() + events_of_node(root).len() <= usize::MAX,
        pre.pis.len() + events_of_node(root).len() <= usize::MAX,
    ensures
        ({
            let ev = seq![decl] + events_of_node(root);
            let r = spec_build(input, ev, None, pre);
            &&& r is Ok
            &&& r->Ok_0.0.doc_ok(r->Ok_0.1)
            &&& r->Ok_0.0.doc_at(r->Ok_0.1).version == spec_decl_version(input, ev)
            &&& r->Ok_0.0.doc_at(r->Ok_0.1).character_encoding_scheme == spec_decl_encoding(
                input,
                ev,
            )
            &&& r->Ok_0.0.doc_at(r->Ok_0.1).standalone == spec_decl_standalone(ev)
            &&& mirrors_node(
                r->Ok_0.0,
                ElementChildInfoItem::Element(r->Ok_0.0.doc_at(r->Ok_0.1).document_element),
                root,
                lens_of(spec_s0(pre).store),
                lens_of(r->Ok_0.0),
            )
        }),
{
    let tree_ev = events_of_node(root);
    let ev = seq![decl] + tree_ev;
    let doc = spec_doc_handle(pre);
    let s0 = spec_s0(pre);
    DocInfoItem::lemma_mk(pre.sid, pre.docs.len() as int);
    assert(state_inv(pre, doc, s0));
    assert(ev[0] == decl);
    assert(spec_has_decl(ev));
    assert(spec_i0(ev) == 1);
    assert(forall|j: int| 0 <= j < tree_ev.len() ==> ev[1 + j] == #[trigger] tree_ev[j]);

    // The tree's run is the same from position 1 of the combined stream as
    // from position 0 of its own stream, where the single-root law holds.
    lemma_single_root_parses(input, root, pre);
    let tr = spec_run(input, doc, tree_ev, 0, tree_ev.len() as int, s0);
    lemma_run_slice(input, doc, tree_ev, 0, ev, 1, tree_ev.len() as int, s0);
    assert(spec_run(input, doc, ev, 1, ev.len() as int, s0) == tr);
    assert(tr is Ok);
    let sf = tr->Ok_0;
    let built0 = spec_build(input, tree_ev, None, pre);
    assert(!spec_has_decl(tree_ev));
    let built = spec_build(input, ev, None, pre);
    assert(built is Ok);
    lemma_run_inv(input, pre, doc, tree_ev, 0, tree_ev.len() as int, s0, sf);
    assert(built->Ok_0.0.elements == built0->Ok_0.0.elements);
    assert(built->Ok_0.0.comments == built0->Ok_0.0.comments);
    assert(built->Ok_0.0.pis == built0->Ok_0.0.pis);
    assert(built->Ok_0.0.doc_at(doc).document_element == built0->Ok_0.0.doc_at(
        doc,
    ).document_element);
    lemma_mirrors_node_preserved(
        built0->Ok_0.0,
        built->Ok_0.0,
        ElementChildInfoItem::Element(built->Ok_0.0.doc_at(doc).document_element),
        root,
        lens_of(s0.store),
        lens_of(built0->Ok_0.0),
        lens_of(s0.store),
        lens_of(built->Ok_0.0),
    );
}

} // verus!

verus! {

/// Whether every event of `mis` is document-level miscellaneous content: a
/// comment or a processing instruction.
pub open spec fn all_misc(mis: Seq<RawEvent>) -> bool {
    forall|k: int|
        0 <= k < mis.len() ==> (#[trigger] mis[k]) is Comment || mis[k] is ProcessingInstruction
}

/// Document-level miscellaneous content is accepted in any non-terminal
/// document mode and changes nothing.
proof fn lemma_misc_run(input: Seq<u8>, doc: DocInfoItem, mis: Seq<RawEvent>, s: MachineState)
    requires
        all_misc(mis),
        s.mode is AfterXmlDecl || s.mode is AfterDTD || s.mode is AfterRootElement,
    ensures
        spec_run(input, doc, mis, 0, mis.len() as int, s) == Ok::<MachineState, ParseError>(s),
    decreases mis.len(),
{
    if mis.len() > 0 {
        let front = mis.subrange(0, mis.len() - 1);
        assert(all_misc(front));
        lemma_misc_run(input, doc, front, s);
        lemma_run_slice(input, doc, front, 0, mis, 0, front.len() as int, s);
        assert(spec_run(input, doc, mis, 0, mis.len() - 1, s) == Ok::<MachineState, ParseError>(
            s,
        ));
        assert(mis[mis.len() - 1] is Comment || mis[mis.len() - 1] is ProcessingInstruction);
        assert(spec_step(input, doc, mis[mis.len() - 1], s) == Ok::<MachineState, ParseError>(s));
    }
}

/// For every well-formed single-root input with document-level
/// miscellaneous content — comments and processing instructions before and
/// after one well-formed element tree — the build succeeds, and the
/// resulting document's root element mirrors the tree exactly.
#[verifier::rlimit(80)]
#[verifier::spinoff_prover]
pub proof fn lemma_single_root_with_misc_parses(
    input: Seq<u8>,
    misc1: Seq<RawEvent>,
    root: XmlNode,
    misc2: Seq<RawEvent>,
    pre: StoreV,
)
    requires
        all_misc(misc1),
        all_misc(misc2),
        root is Element,
        node_wf(input, root),
        pre.docs.len() <= usize::MAX,
        pre.elements.len() + events_of_node(root).len() <= usize::MAX,
        pre.comments.len() + events_of_node(root).len() <= usize::MAX,
        pre.pis.len() + events_of_node(root).len() <= usize::MAX,
    ensures
        ({
            let ev = misc1 + events_of_node(root) + misc2;
            let r = spec_build(input, ev, None, pre);
            &&& r is Ok
            &&& r->Ok_0.0.doc_ok(r->Ok_0.1)
            &&& mirrors_node(
                r->Ok_0.0,
                ElementChildInfoItem::Element(r->Ok_0.0.doc_at(r->Ok_0.1).document_element),
                root,
                lens_of(spec_s0(pre).store),
                lens_of(r->Ok_0.0),
            )
        }),
{
    let t_ev = events_of_node(root);
    let ev = misc1 + t_ev + misc2;
    let doc = spec_doc_handle(pre);
    let s0 = spec_s0(pre);
    let n1 = misc1.len() as int;
    let n2 = n1 + t_ev.len() as int;
    let total = ev.len() as int;
    DocInfoItem::lemma_mk(pre.sid, pre.docs.len() as int);
    assert(state_inv(pre, doc, s0));
    assert(forall|j: int| 0 <= j < misc1.len() ==> ev[j] == #[trigger] misc1[j]);
    assert(forall|j: int| 0 <= j < t_ev.len() ==> ev[n1 + j] == #[trigger] t_ev[j]);
    assert(forall|j: int| 0 <= j < misc2.len() ==> ev[n2 + j] == #[trigger] misc2[j]);
    assert(!spec_has_decl(ev)) by {
        if ev.len() > 0 {
            if misc1.len() > 0 {
                assert(ev[0] == misc1[0]);
            } else {
                assert(ev[0] == t_ev[0]);
                assert(t_ev[0] == RawEvent::ElementStart {
                    prefix: root->Element_prefix,
                    local: root->Element_local,
                });
            }
        }
    }

    lemma_misc_run(input, doc, misc1, s0);
    lemma_run_slice(input, doc, misc1, 0, ev, 0, n1, s0);
    assert(spec_run(input, doc, ev, 0, n1, s0) == Ok::<MachineState, ParseError>(s0));

    lemma_root_tree_run(input, pre, doc, root, s0);
    lemma_run_slice(input, doc, t_ev, 0, ev, n1, t_ev.len() as int, s0);
    lemma_run_compose(input, doc, ev, 0, n1, n2, s0);
    let sf = spec_run(input, doc, t_ev, 0, t_ev.len() as int, s0)->Ok_0;
    assert(spec_run(input, doc, ev, 0, n2, s0) == Ok::<MachineState, ParseError>(sf));
    lemma_run_inv(input, pre, doc, t_ev, 0, t_ev.len() as int, s0, sf);

    lemma_misc_run(input, doc, misc2, sf);
    lemma_run_slice(input, doc, misc2, 0, ev, n2, misc2.len() as int, sf);
    lemma_run_compose(input, doc, ev, 0, n2, total, s0);
    assert(spec_run(input, doc, ev, 0, total, s0) == Ok::<MachineState, ParseError>(sf));

    let built = spec_build(input, ev, None, pre);
    assert(built is Ok);
    let h = ElementInfoItem::mk(s0.store.sid, s0.store.elements.len() as int);
    let st = built->Ok_0.0;
    assert(st.doc_ok(doc));
    assert(st.doc_at(doc).document_element == h);
    lemma_mirrors_node_preserved(
        sf.store,
        st,
        ElementChildInfoItem::Element(h),
        root,
        lens_of(s0.store),
        lens_of(sf.store),
        lens_of(s0.store),
        lens_of(st),
    );
}

} // verus!

verus! {

/// Two machine states that agree on everything the machine's decisions can
/// read: the mode, the stack's length and lexical names, whether a root
/// was seen, and the extents of the three content tables. The stores'
/// contents and identity may differ; no decision reads them.
pub open spec fn sim_rel(sa: MachineState, sb: MachineState) -> bool {
    &&& sa.mode == sb.mode
    &&& sa.stack.len() == sb.stack.len()
    &&& (forall|k: int|
        0 <= k < sa.stack.len() ==> (#[trigger] sa.stack[k]).prefix == sb.stack[k].prefix
            && sa.stack[k].local == sb.stack[k].local)
    &&& (sa.root is Some <==> sb.root is Some)
    &&& sa.store.elements.len() == sb.store.elements.len()
    &&& sa.store.comments.len() == sb.store.comments.len()
    &&& sa.store.pis.len() == sb.store.pis.len()
}

/// One step taken from two related states goes the same way: the same
/// error, or two related successor states.
proof fn lemma_step_sim(
    input: Seq<u8>,
    doc_a: DocInfoItem,
    doc_b: DocInfoItem,
    ev: RawEvent,
    sa: MachineState,
    sb: MachineState,
)
    requires
        sim_rel(sa, sb),
    ensures
        spec_step(input, doc_a, ev, sa) is Ok <==> spec_step(input, doc_b, ev, sb) is Ok,
        spec_step(input, doc_a, ev, sa) matches Err(e) ==> spec_step(input, doc_b, ev, sb)
            == Err::<MachineState, ParseError>(e),
        spec_step(input, doc_a, ev, sa) is Ok ==> sim_rel(
            spec_step(input, doc_a, ev, sa)->Ok_0,
            spec_step(input, doc_b, ev, sb)->Ok_0,
        ),
{
    let ra = spec_step(input, doc_a, ev, sa);
    let rb = spec_step(input, doc_b, ev, sb);
    match ev {
        RawEvent::ElementEndOpen | RawEvent::ElementEndEmpty => {
            if ra is Ok {
                let na = ra->Ok_0;
                let nb = rb->Ok_0;
                assert(na.mode == nb.mode);
                assert(na.stack.len() == nb.stack.len());
                assert(na.root is Some <==> nb.root is Some);
                assert(na.store.elements.len() == nb.store.elements.len());
                assert(na.store.comments.len() == nb.store.comments.len());
                assert(na.store.pis.len() == nb.store.pis.len());
                assert forall|k: int|
                    0 <= k < na.stack.len() implies (#[trigger] na.stack[k]).prefix
                    == nb.stack[k].prefix && na.stack[k].local == nb.stack[k].local by {
                    if k < sa.stack.len() {
                        assert(sa.stack[k].prefix == sb.stack[k].prefix);
                    }
                }
            }
        },
        RawEvent::ElementEndClose { prefix, local } => {
            if sa.mode is Content && sa.stack.len() > 0 {
                assert(sa.stack.last().prefix == sb.stack.last().prefix);
                assert(sa.stack.last().local == sb.stack.last().local);
                if ra is Ok {
                    let na = ra->Ok_0;
                    let nb = rb->Ok_0;
                    assert forall|k: int|
                        0 <= k < na.stack.len() implies (#[trigger] na.stack[k]).prefix
                        == nb.stack[k].prefix && na.stack[k].local == nb.stack[k].local by {
                        assert(sa.stack[k].prefix == sb.stack[k].prefix);
                    }
                }
            }
        },
        RawEvent::Comment { .. } | RawEvent::ProcessingInstruction { .. } => {
            if sa.mode is Content && sa.stack.len() > 0 {
                assert(sa.stack.last().prefix == sb.stack.last().prefix);
            }
        },
        _ => {},
    }
}

/// A whole run from two related states goes the same way: the same error,
/// or two related final states.
proof fn lemma_run_sim(
    input: Seq<u8>,
    doc_a: DocInfoItem,
    doc_b: DocInfoItem,
    events: Seq<RawEvent>,
    lo: int,
    i: int,
    sa0: MachineState,
    sb0: MachineState,
)
    requires
        lo <= i,
        sim_rel(sa0, sb0),
    ensures
        spec_run(input, doc_a, events, lo, i, sa0) is Ok <==> spec_run(
            input,
            doc_b,
            events,
            lo,
            i,
            sb0,
        ) is Ok,
        spec_run(input, doc_a, events, lo, i, sa0) matches Err(e) ==> spec_run(
            input,
            doc_b,
            events,
            lo,
            i,
            sb0,
        ) == Err::<MachineState, ParseError>(e),
        spec_run(input, doc_a, events, lo, i, sa0) is Ok ==> sim_rel(
            spec_run(input, doc_a, events, lo, i, sa0)->Ok_0,
            spec_run(input, doc_b, events, lo, i, sb0)->Ok_0,
        ),
    decreases i - lo,
{
    if i > lo {
        lemma_run_sim(input, doc_a, doc_b, events, lo, i - 1, sa0, sb0);
        let ma = spec_run(input, doc_a, events, lo, i - 1, sa0);
        let mb = spec_run(input, doc_b, events, lo, i - 1, sb0);
        if ma is Ok {
            lemma_step_sim(input, doc_a, doc_b, events[i - 1], ma->Ok_0, mb->Ok_0);
        }
    }
}

/// The build's outcome — success, or which error — is the same from any
/// two starting stores whose content tables have equal extents: the
/// machine's decisions read only the input, the events, and the state
/// pieces of [`sim_rel`].
pub proof fn lemma_build_outcome_sim(
    input: Seq<u8>,
    events: Seq<RawEvent>,
    lex: Option<xmlparser::Error>,
    pre_a: StoreV,
    pre_b: StoreV,
)
    requires
        pre_a.elements.len() == pre_b.elements.len(),
        pre_a.comments.len() == pre_b.comments.len(),
        pre_a.pis.len() == pre_b.pis.len(),
    ensures
        spec_build(input, events, lex, pre_a) is Ok <==> spec_build(input, events, lex, pre_b)
            is Ok,
        spec_build(input, events, lex, pre_a) matches Err(e) ==> spec_build(
            input,
            events,
            lex,
            pre_b,
        ) == Err::<(StoreV, DocInfoItem), ParseError>(e),
{
    let sa0 = spec_s0(pre_a);
    let sb0 = spec_s0(pre_b);
    assert(sim_rel(sa0, sb0));
    let i0 = spec_i0(events);
    let n = events.len() as int;
    lemma_run_sim(input, spec_doc_handle(pre_a), spec_doc_handle(pre_b), events, i0, n, sa0, sb0);
}

} // verus!

verus! {

/// Success is owed: an input whose named event stream is a well-formed
/// single-root document — document-level comments and processing
/// instructions around one well-formed element tree — and which ends
/// without a lexical error, parses successfully (`spec_parse_ok`, hence
/// `parse` returns `Ok`), and the graph mirrors the tree by
/// [`lemma_single_root_with_misc_parses`].
pub proof fn lemma_parse_owed_success(
    input: Seq<u8>,
    misc1: Seq<RawEvent>,
    root: XmlNode,
    misc2: Seq<RawEvent>,
)
    requires
        !spec_lex_err_of(input),
        spec_events_of(input) == misc1 + events_of_node(root) + misc2,
        all_misc(misc1),
        all_misc(misc2),
        root is Element,
        node_wf(input, root),
        events_of_node(root).len() <= usize::MAX,
    ensures
        spec_parse_ok(input),
{
    lemma_single_root_with_misc_parses(input, misc1, root, misc2, spec_empty_store(0));
}

/// As [`lemma_parse_owed_success`], for an input whose named event stream
/// opens with an XML declaration before its root element tree.
pub proof fn lemma_declared_parse_owed_success(input: Seq<u8>, decl: RawEvent, root: XmlNode)
    requires
        !spec_lex_err_of(input),
        spec_events_of(input) == seq![decl] + events_of_node(root),
        decl is Declaration,
        spec_decl_ok(input, decl),
        root is Element,
        node_wf(input, root),
        events_of_node(root).len() <= usize::MAX,
    ensures
        spec_parse_ok(input),
{
    lemma_declared_single_root_parses(input, decl, root, spec_empty_store(0));
}

} // verus!
