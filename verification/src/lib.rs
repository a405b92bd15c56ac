//! An in-memory "information set" graph for parsed XML documents.
//!
//! The crate has three parts:
//! - an entity store (arena) of typed, copyable handles, one table per node
//!   kind, together with a preallocation transaction that lets a node be
//!   named before its value is known and rolls every effect back when the
//!   surrounding operation fails (`store`);
//! - a token-driven build state machine that consumes the lexical event
//!   stream of an external tokenizer and populates the store while enforcing
//!   structural well-formedness (`parse`);
//! - small lexical utilities (`utils`).

use vstd::prelude::*;

mod store;
pub mod parse;
pub mod utils;

pub use store::{AttrReferenceInfoItem, AttrSpecified, AttrTypeAndReferences, AttributeData,
    AttributeInfoItem, CharGroupData, CharGroupInfoItem, CommentData, CommentInfoItem,
    CommentParentInfoItem, DTDData, DTDInfoItem, DTDView, DocChildInfoItem, DocData, DocInfoItem,
    DocView, ElementChildInfoItem, ElementData, ElementInfoItem, ElementParentInfoItem,
    ElementView, InfoSetData, NSData, NSInfoItem, NotationData, NotationInfoItem, PIData,
    PIInfoItem, PIParentInfoItem, Slot, StoreError, StoreV, Transaction, UEData, UEInfoItem,
    UERData, UERInfoItem, no_open_reservations, opt_encoding_view, opt_seq_view, rolled_back,
    slot_view, store_restored, table_restored};

verus! {

use vstd::string::StringSliceAdditionalSpecFns;
use vstd::utf8::is_char_boundary;

/// A half-open byte-offset range into the original input buffer.
///
/// A span carries no text of its own: it is materialized against the buffer
/// retained by the [`InfoSet`] it came from, and materialization fails if the
/// range does not denote a well-formed substring of that buffer.
#[derive(Clone, Copy, PartialEq, Eq, Structural, Debug)]
pub struct Span {
    pub start: usize,
    pub end: usize,
}

/// Whether the byte range `[start, end)` denotes a substring of a buffer
/// whose UTF-8 encoding is `input`: in bounds, ordered, and on character
/// boundaries. These are exactly the ranges `str::get` accepts.
pub open spec fn valid_range(input: Seq<u8>, start: int, end: int) -> bool {
    &&& 0 <= start <= end <= input.len()
    &&& is_char_boundary(input, start)
    &&& is_char_boundary(input, end)
}

/// The bytes a span denotes within a buffer whose UTF-8 encoding is `input`.
pub open spec fn span_bytes(input: Seq<u8>, s: Span) -> Seq<u8> {
    input.subrange(s.start as int, s.end as int)
}

/// Whether `s` denotes a well-formed substring of the input.
pub open spec fn span_valid(input: Seq<u8>, s: Span) -> bool {
    valid_range(input, s.start as int, s.end as int)
}

/// A zero-length lexical match, represented as "absent" wherever the node
/// model uses an optional span.
pub open spec fn span_empty(s: Span) -> bool {
    !(s.start < s.end)
}

impl Span {
    /// Whether this span can be materialized against `input`.
    pub open spec fn ok_for(self, input: &str) -> bool {
        valid_range(input.spec_bytes(), self.start as int, self.end as int)
    }

    /// Materialize this span against the input retained by `infoset`.
    ///
    /// Returns exactly the substring of the retained input that the span
    /// denotes, and fails precisely when the range is not a well-formed
    /// substring of that input.
    pub fn get<'a>(&self, infoset: &'a InfoSet<'_>) -> (r: Result<&'a str, SpanError>)
        ensures
            r is Ok <==> self.ok_for(infoset.input),
            r matches Ok(t) ==> t.spec_bytes() == span_bytes(infoset.input.spec_bytes(), *self),
    {
        str_range(infoset.input, self.start, self.end)
    }
}

/// Extract the substring of `s` at byte range `[start, end)`, failing when
/// the range is out of bounds, reversed, or off a character boundary.
pub fn str_range<'a>(s: &'a str, start: usize, end: usize) -> (r: Result<&'a str, SpanError>)
    ensures
        r is Ok <==> valid_range(s.spec_bytes(), start as int, end as int),
        r matches Ok(t) ==> t.spec_bytes() == s.spec_bytes().subrange(start as int, end as int),
{
    let ghost whole: Seq<u8> = s.spec_bytes();
    let bs = s.as_bytes();
    proof {
        vstd::slice::axiom_spec_len::<u8>(bs);
        vstd::utf8::encode_utf8_valid_utf8(s@);
    }
    if start <= end && end <= bs.len() && s.is_char_boundary(start) && s.is_char_boundary(end) {
        proof {
            vstd::utf8::valid_utf8_split(whole, start as int);
        }
        let (_, tail) = s.split_at(start);
        proof {
            let tb = tail.spec_bytes();
            assert(tb =~= whole.subrange(start as int, whole.len() as int));
            assert(vstd::utf8::valid_utf8(tb));
            if (end as int) < whole.len() {
                vstd::utf8::is_char_boundary_iff_not_is_continuation_byte(whole, end as int);
                assert(tb[end - start] == whole[end as int]);
                vstd::utf8::is_char_boundary_iff_not_is_continuation_byte(
                    tb,
                    (end - start) as int,
                );
            } else {
                vstd::utf8::is_char_boundary_start_end_of_seq(tb);
            }
            assert(is_char_boundary(tb, (end - start) as int));
        }
        let (mid, _) = tail.split_at(end - start);
        proof {
            assert(mid.spec_bytes() =~= whole.subrange(start as int, end as int));
        }
        Ok(mid)
    } else {
        Err(SpanError)
    }
}

/// Failure to materialize a [`Span`] or [`CowSpan`]: the range it holds is
/// not a well-formed substring of the retained input.
#[derive(Clone, Copy, PartialEq, Eq, Structural, Debug)]
pub struct SpanError;

impl SpanError {
    /// A human-readable description of the failure.
    pub fn message(&self) -> &'static str {
        "invalid string span in XML info set"
    }
}

/// A span that denotes a URI.
#[derive(Clone, Copy, PartialEq, Eq, Structural, Debug)]
pub struct UriSpan(pub Span);

/// A placeholder member for reference lists that can never have one: no
/// function of this crate constructs a `Never`, and every field that could
/// hold one always holds `None`.
#[derive(Clone, Copy, PartialEq, Eq, Structural, Debug)]
pub enum Never {
    Impossible,
}

/// The XML version named by a document's declaration.
#[derive(Debug)]
pub enum Version {
    Version1_0,
    Version1_1,
    Other(String),
}

/// The mathematical value of a [`Version`]: the `Other` text as a character
/// sequence.
pub ghost enum VersionView {
    Version1_0,
    Version1_1,
    Other(Seq<char>),
}

impl View for Version {
    type V = VersionView;

    open spec fn view(&self) -> VersionView {
        match self {
            Version::Version1_0 => VersionView::Version1_0,
            Version::Version1_1 => VersionView::Version1_1,
            Version::Other(s) => VersionView::Other(s@),
        }
    }
}

impl Clone for Version {
    /// Clones preserve the version's value.
    fn clone(&self) -> (r: Version)
        ensures
            r@ == self@,
    {
        match self {
            Version::Version1_0 => Version::Version1_0,
            Version::Version1_1 => Version::Version1_1,
            Version::Other(s) => Version::Other(s.clone()),
        }
    }
}

/// The character encoding scheme named by a document's declaration.
#[derive(Debug)]
pub enum EncodingScheme {
    Utf8,
    Other(String),
}

/// The mathematical value of an [`EncodingScheme`].
pub ghost enum EncodingSchemeView {
    Utf8,
    Other(Seq<char>),
}

impl View for EncodingScheme {
    type V = EncodingSchemeView;

    open spec fn view(&self) -> EncodingSchemeView {
        match self {
            EncodingScheme::Utf8 => EncodingSchemeView::Utf8,
            EncodingScheme::Other(s) => EncodingSchemeView::Other(s@),
        }
    }
}

impl Clone for EncodingScheme {
    /// Clones preserve the encoding scheme's value.
    fn clone(&self) -> (r: EncodingScheme)
        ensures
            r@ == self@,
    {
        match self {
            EncodingScheme::Utf8 => EncodingScheme::Utf8,
            EncodingScheme::Other(s) => EncodingScheme::Other(s.clone()),
        }
    }
}

/// Either a span into the retained input, or owned replacement text (used
/// wherever normalization may substitute source text).
#[derive(Debug)]
pub enum CowSpan {
    Borrowed(Span),
    Owned(String),
}

impl Clone for CowSpan {
    /// Clones preserve the variant, the span, and the owned text's value.
    fn clone(&self) -> (r: CowSpan)
        ensures
            match self {
                CowSpan::Borrowed(sp) => r == CowSpan::Borrowed(*sp),
                CowSpan::Owned(s) => r matches CowSpan::Owned(t) && t@ == s@,
            },
    {
        match self {
            CowSpan::Borrowed(sp) => CowSpan::Borrowed(*sp),
            CowSpan::Owned(s) => CowSpan::Owned(s.clone()),
        }
    }
}

impl CowSpan {
    /// Materialize: a borrowed span resolves against the retained input
    /// exactly as [`Span::get`] does; owned text is returned as it is.
    pub fn get_ref<'a>(&'a self, infoset: &'a InfoSet<'_>) -> (r: Result<&'a str, SpanError>)
        ensures
            match self {
                CowSpan::Borrowed(sp) => {
                    &&& r is Ok <==> sp.ok_for(infoset.input)
                    &&& (r matches Ok(t) ==> t.spec_bytes() == span_bytes(
                        infoset.input.spec_bytes(),
                        *sp,
                    ))
                },
                CowSpan::Owned(s) => r matches Ok(t) && t@ == s@,
            },
    {
        match self {
            CowSpan::Borrowed(span) => span.get(infoset),
            CowSpan::Owned(s) => Ok(s.as_str()),
        }
    }
}

/// Either a value that is known, or the statement that nobody has computed it.
#[derive(Clone, Copy, Debug)]
pub enum UnknownOr<T> {
    Unknown,
    Known(T),
}

/// The result of a successful parse: the entity store holding the whole node
/// graph, together with the input buffer that every [`Span`] in the graph
/// points into. Spans are meaningless without this buffer.
pub struct InfoSet<'input> {
    pub input: &'input str,
    pub data: InfoSetData,
}

/// Side observations recorded while parsing.
#[derive(Clone, Copy, Debug)]
pub struct InfoSetStatistics {
    pub has_nonstandard_entity_reference: bool,
}

impl Default for InfoSetStatistics {
    /// By default no non-standard construct has been observed.
    fn default() -> (r: InfoSetStatistics)
        ensures
            !r.has_nonstandard_entity_reference,
    {
        InfoSetStatistics { has_nonstandard_entity_reference: false }
    }
}

} // verus!
