//! What the library has from elsewhere: URLs, XML documents, JSON, the clock,
//! and quoted text. Each function here hands plain values to an outside function
//! and gives plain values back; what it claims of that function is not
//! proved.
use vstd::prelude::*;

use crate::json;
use crate::json::{Json, JsonView};
use serde_json::Value;

verus! {

/// A result over strings as one over texts.
pub open spec fn as_texts(r: Result<String, String>) -> Result<Seq<char>, Seq<char>> {
    match r {
        Ok(v) => Ok(v@),
        Err(e) => Err(e@),
    }
}

// ── URLs ──────────────────────────────────────────────────────────────────

/// What `reqwest::Url::parse` makes of a text: the URL in its normal form, or
/// the words of the error.
pub uninterp spec fn parsed_url(s: Seq<char>) -> Result<Seq<char>, Seq<char>>;

/// `reqwest::Url::parse`. The result, as text, depends on the argument alone
/// and is named `parsed_url`.
#[verifier::external_body]
pub(crate) fn parse_url(s: &str) -> (r: Result<String, String>)
    ensures
        as_texts(r) == parsed_url(s@),
{
    reqwest::Url::parse(s).map(|u| u.to_string()).map_err(|e| e.to_string())
}

/// What `reqwest::Url::join` makes of a reference, read from the URL that a
/// text stands for: the URL in its normal form, or the words of the error.
pub uninterp spec fn joined_url(base: Seq<char>, href: Seq<char>) -> Result<Seq<char>, Seq<char>>;

/// `reqwest::Url::join` on the URL that `base` stands for. A `base` that is no
/// URL gives the error of `reqwest::Url::parse`. The result, as text, depends
/// on the two arguments alone and is named `joined_url`.
#[verifier::external_body]
pub(crate) fn join_url(base: &str, href: &str) -> (r: Result<String, String>)
    ensures
        as_texts(r) == joined_url(base@, href@),
{
    let url = reqwest::Url::parse(base).and_then(|b| b.join(href));
    url.map(|u| u.to_string()).map_err(|e| e.to_string())
}

/// What `reqwest::Url::path` gives of the URL that a text stands for; nothing
/// where the text is no URL.
pub uninterp spec fn path_of_url(url: Seq<char>) -> Option<Seq<char>>;

/// `reqwest::Url::path` on the URL that `url` stands for. The result depends
/// on the argument alone and is named `path_of_url`.
#[verifier::external_body]
pub(crate) fn url_path(url: &str) -> (r: Option<String>)
    ensures
        r.deep_view() == path_of_url(url@),
{
    reqwest::Url::parse(url).ok().map(|u| u.path().to_string())
}

// ── XML ───────────────────────────────────────────────────────────────────

/// An attribute of an XML element.
#[derive(Debug)]
pub struct XmlAttribute {
    /// The local name.
    pub name: String,
    pub value: String,
}

/// An attribute as plain values.
pub struct XmlAttributeView {
    pub name: Seq<char>,
    pub value: Seq<char>,
}

impl DeepView for XmlAttribute {
    type V = XmlAttributeView;

    open spec fn deep_view(&self) -> XmlAttributeView {
        XmlAttributeView { name: self.name@, value: self.value@ }
    }
}

/// A node of an XML document: an element, a text, or something else.
#[derive(Debug)]
pub struct XmlNode {
    /// The position of the parent among the document's nodes.
    pub parent: Option<usize>,
    /// The local name of an element; empty for other nodes.
    pub name: String,
    pub namespace: Option<String>,
    /// A text node's text, and of an element the text that it starts with.
    pub text: Option<String>,
    pub attributes: Vec<XmlAttribute>,
}

/// A node as plain values.
pub struct XmlNodeView {
    pub parent: Option<usize>,
    pub name: Seq<char>,
    pub namespace: Option<Seq<char>>,
    pub text: Option<Seq<char>>,
    pub attributes: Seq<XmlAttributeView>,
}

impl DeepView for XmlNode {
    type V = XmlNodeView;

    open spec fn deep_view(&self) -> XmlNodeView {
        XmlNodeView {
            parent: self.parent,
            name: self.name@,
            namespace: self.namespace.deep_view(),
            text: self.text.deep_view(),
            attributes: self.attributes.deep_view(),
        }
    }
}

/// What `roxmltree::Document::parse` makes of a text: the document's nodes in
/// document order, or the words of the error.
pub uninterp spec fn parsed_xml(s: Seq<char>) -> Result<Seq<XmlNodeView>, Seq<char>>;

/// `roxmltree::Document::parse`, with the nodes that `Document::descendants`
/// walks. Each node is given by what `parent`, `tag_name`, `text` and
/// `attributes` say of it; its position is its `NodeId`, which is how a parent
/// is named. The result depends on the argument alone and is named
/// `parsed_xml`.
#[verifier::external_body]
pub(crate) fn parse_xml(s: &str) -> (r: Result<Vec<XmlNode>, String>)
    ensures
        match r {
            Ok(nodes) => parsed_xml(s@) == Ok::<Seq<XmlNodeView>, Seq<char>>(nodes.deep_view()),
            Err(e) => parsed_xml(s@) == Err::<Seq<XmlNodeView>, Seq<char>>(e@),
        },
{
    let doc = roxmltree::Document::parse(s).map_err(|e| e.to_string())?;
    Ok(doc.descendants().map(|n| XmlNode {
        parent: n.parent().map(|p| p.id().get_usize()),
        name: n.tag_name().name().to_string(),
        namespace: n.tag_name().namespace().map(String::from),
        text: n.text().map(String::from),
        attributes: n.attributes().map(|a| XmlAttribute {
            name: a.name().to_string(),
            value: a.value().to_string(),
        }).collect(),
    }).collect())
}

// ── JSON ──────────────────────────────────────────────────────────────────

/// What `serde_json::from_str` makes of a text: the value, or the words of the
/// error.
pub uninterp spec fn parsed_json(s: Seq<char>) -> Result<JsonView, Seq<char>>;

/// `serde_json::from_str` to a `serde_json::Value`. What an array or an object
/// holds is read in turn from how `Value` writes it. The result depends on the
/// argument alone and is named `parsed_json`.
#[verifier::external_body]
pub(crate) fn parse_json(s: &str) -> (r: Result<Json, String>)
    ensures
        json::result_view(r) == parsed_json(s@),
{
    match serde_json::from_str(s).map_err(|e| e.to_string())? {
        Value::Null => Ok(Json::Null),
        Value::Bool(b) => Ok(Json::Bool(b)),
        Value::Number(_) => Ok(Json::Number),
        Value::String(t) => Ok(Json::Text(t)),
        Value::Array(v) => {
            Result::map(v.iter().map(|e| parse_json(&e.to_string())).collect(), Json::Array)
        },
        Value::Object(m) => {
            let read = m.iter().map(|(k, e)| parse_json(&e.to_string()).map(|j| (k.clone(), j)));
            Result::map(read.collect(), Json::Object)
        },
    }
}

// ── The clock ─────────────────────────────────────────────────────────────

/// A moment as text: year, month and day, a `T`, the time of day with so many
/// digits of a second's fraction, and a `Z`, as in `20261001T120000Z`. A year
/// after 9999 has a sign before it.
pub open spec fn moment_text(s: Seq<char>, fraction: int) -> bool {
    &&& s.len() >= 16 + fraction
    &&& s.last() == 'Z'
    &&& s[s.len() - 8 - fraction] == 'T'
    &&& forall|i: int|
        0 <= i < s.len() - 1 && i != s.len() - 8 - fraction ==> ('0' <= #[trigger] s[i] && s[i]
            <= '9') || (i == 0 && s[i] == '+')
}

/// `chrono::Utc::now`, written by `DateTime::format` to the second or to the
/// nanosecond. Which moment it is depends on the clock; how one is written
/// does not. `chrono::Utc::now` panics where the clock stands before 1970.
#[verifier::external_body]
pub(crate) fn utc_now(format: &str) -> (r: String)
    requires
        format@ == "%Y%m%dT%H%M%SZ"@ || format@ == "%Y%m%dT%H%M%S%fZ"@,
    ensures
        format@ == "%Y%m%dT%H%M%SZ"@ ==> moment_text(r@, 0),
        format@ == "%Y%m%dT%H%M%S%fZ"@ ==> moment_text(r@, 9),
{
    chrono::Utc::now().format(format).to_string()
}

// ── Quoted text ───────────────────────────────────────────────────────────

/// A text as `str`'s `Debug` writes it: in quotes, with escapes.
pub uninterp spec fn quoted(s: Seq<char>) -> Seq<char>;

/// `str`'s `Debug` form, named `quoted`.
#[verifier::external_body]
pub(crate) fn quote(s: &str) -> (r: String)
    ensures
        r@ == quoted(s@),
{
    format!("{s:?}")
}

} // verus!
