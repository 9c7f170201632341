//! Decoding of HTTP requests: the structured message model, the request-line
//! and header-field parsers, the multipart boundary scanner, and the
//! byte-level message decoder that drives them.

use vstd::prelude::*;

use crate::spec_capitalize_key;
use crate::capitalize_key;
use crate::strmap::StrMap;
use crate::text::TrimKind;
use crate::text::sep_index;
use crate::text::is_space_char;
use crate::text::lemma_sep_index_props;
use crate::text::spec_split;
use crate::text::spec_split_first;
use crate::text::spec_trim;
use crate::text::split_first_str;
use crate::text::split_str;
use crate::text::str_eq;
use crate::text::trim_end_kind;
use crate::text::trim_kind_str;
use crate::text::trim_kind;
use crate::text::trim_start_kind;
use crate::text::trim_str;
use crate::text::utf8_str;
use vstd::slice::slice_to_vec;
use vstd::utf8::decode_utf8;
use vstd::utf8::valid_utf8;

verus! {

/// An HTTP request method, or `Invalid` for an unrecognized token.
#[derive(Debug, PartialEq, Eq, Structural, Clone, Copy)]
pub enum Method {
    Connect,
    Delete,
    Get,
    Head,
    Invalid,
    Options,
    Patch,
    Post,
    Put,
    Trace,
}

/// An HTTP protocol label, or `Invalid` for an unrecognized one.
#[derive(Debug, PartialEq, Eq, Structural, Clone, Copy)]
pub enum Protocol {
    Invalid,
    V1_0,
    V1_1,
    V2_0,
    V0_9,
}

/// Whether a request body is expected for a method: a closed tri-state.
#[derive(Debug, PartialEq, Eq, Structural, Clone, Copy)]
pub enum SettingValence {
    Optional,
    No,
    Yes,
}

/// A header value classified by body framing: a multipart value carries its
/// boundary token, anything else is a single part.
#[derive(Debug)]
pub enum HeaderContentType {
    MultiPart(String),
    SinglePart,
}

/// One comma-separated sub-part of a header value parameter block: either a
/// bare token or a `key=value` pair.
#[derive(Debug)]
pub enum HeaderValuePart {
    Single(String),
    KeyValue(String, String),
}

/// The specification-level image of a `HeaderValuePart`.
pub enum HeaderPartView {
    Single(Seq<char>),
    KeyValue(Seq<char>, Seq<char>),
}

impl View for HeaderValuePart {
    type V = HeaderPartView;

    open spec fn view(&self) -> HeaderPartView {
        match self {
            HeaderValuePart::Single(s) => HeaderPartView::Single(s@),
            HeaderValuePart::KeyValue(k, v) => HeaderPartView::KeyValue(k@, v@),
        }
    }
}

impl DeepView for HeaderValuePart {
    type V = HeaderPartView;

    open spec fn deep_view(&self) -> HeaderPartView {
        self.view()
    }
}

/// A parsed header value: semicolon-separated parameter blocks, each a list
/// of comma-separated sub-parts.
#[derive(Debug)]
pub struct HeaderValueParts {
    pub parts: Vec<Vec<HeaderValuePart>>,
}

impl View for HeaderValueParts {
    type V = Seq<Seq<HeaderPartView>>;

    open spec fn view(&self) -> Seq<Seq<HeaderPartView>> {
        self.parts.deep_view()
    }
}

/// The value of the first `key=value` sub-part of `items` whose key is `key`.
pub open spec fn spec_lookup_block(items: Seq<HeaderPartView>, key: Seq<char>) -> Option<
    Seq<char>,
>
    decreases items.len(),
{
    if items.len() == 0 {
        None
    } else {
        match items[0] {
            HeaderPartView::KeyValue(k, v) => {
                if k == key {
                    Some(v)
                } else {
                    spec_lookup_block(items.drop_first(), key)
                }
            },
            HeaderPartView::Single(_) => spec_lookup_block(items.drop_first(), key),
        }
    }
}

/// The value found for `key` scanning blocks, then sub-parts, in order.
pub open spec fn spec_lookup(blocks: Seq<Seq<HeaderPartView>>, key: Seq<char>) -> Option<
    Seq<char>,
>
    decreases blocks.len(),
{
    if blocks.len() == 0 {
        None
    } else {
        match spec_lookup_block(blocks[0], key) {
            Some(v) => Some(v),
            None => spec_lookup(blocks.drop_first(), key),
        }
    }
}

/// The rendering of one sub-part: the token itself, or `key=value`.
pub open spec fn spec_render_item(p: HeaderPartView) -> Seq<char> {
    match p {
        HeaderPartView::Single(s) => s,
        HeaderPartView::KeyValue(k, v) => k + "="@ + v,
    }
}

/// Sub-parts joined with `", "`.
pub open spec fn spec_render_block(items: Seq<HeaderPartView>) -> Seq<char>
    decreases items.len(),
{
    if items.len() == 0 {
        Seq::empty()
    } else if items.len() == 1 {
        spec_render_item(items[0])
    } else {
        spec_render_block(items.drop_last()) + ", "@ + spec_render_item(items.last())
    }
}

/// Parameter blocks joined with `"; "`.
pub open spec fn spec_render_blocks(blocks: Seq<Seq<HeaderPartView>>) -> Seq<char>
    decreases blocks.len(),
{
    if blocks.len() == 0 {
        Seq::empty()
    } else if blocks.len() == 1 {
        spec_render_block(blocks[0])
    } else {
        spec_render_blocks(blocks.drop_last()) + "; "@ + spec_render_block(blocks.last())
    }
}

impl HeaderValueParts {
    /// The value of the first `key=value` sub-part stored under `key`,
    /// scanning blocks and sub-parts in their original order.
    pub fn get_key_value(&self, key: &str) -> (r: Option<String>)
        ensures
            match r {
                Some(v) => spec_lookup(self@, key@) == Some(v@),
                None => spec_lookup(self@, key@) is None,
            },
    {
        let nb = self.parts.len();
        let mut bi: usize = 0;
        proof {
            assert(self@.skip(0) =~= self@);
        }
        while bi < nb
            invariant
                bi <= nb,
                nb == self@.len(),
                self@.len() == self.parts@.len(),
                spec_lookup(self@, key@) == spec_lookup(self@.skip(bi as int), key@),
            decreases nb - bi,
        {
            let block = &self.parts[bi];
            proof {
                assert(self@[bi as int] == block.deep_view());
                assert(block.deep_view().skip(0) =~= block.deep_view());
            }
            let ni = block.len();
            let mut ii: usize = 0;
            while ii < ni
                invariant
                    ii <= ni,
                    ni == block.deep_view().len(),
                    ni == block@.len(),
                    bi < nb,
                    nb == self@.len(),
                    self@[bi as int] == block.deep_view(),
                    spec_lookup(self@, key@) == spec_lookup(self@.skip(bi as int), key@),
                    spec_lookup_block(block.deep_view(), key@) == spec_lookup_block(
                        block.deep_view().skip(ii as int),
                        key@,
                    ),
                decreases ni - ii,
            {
                let item = &block[ii];
                proof {
                    assert(block.deep_view()[ii as int] == item@);
                    assert(block.deep_view().skip(ii as int)[0] == item@);
                    assert(block.deep_view().skip(ii as int).drop_first() =~= block.deep_view()
                        .skip(ii + 1));
                }
                match item {
                    HeaderValuePart::KeyValue(k, v) => {
                        if str_eq(k.as_str(), key) {
                            proof {
                                assert(spec_lookup_block(block.deep_view(), key@) == Some(v@));
                                assert(self@.skip(bi as int)[0] == block.deep_view());
                            }
                            return Some(v.clone());
                        }
                    },
                    HeaderValuePart::Single(_) => {},
                }
                ii = ii + 1;
            }
            proof {
                assert(block.deep_view().skip(ni as int) =~= Seq::<HeaderPartView>::empty());
                assert(spec_lookup_block(block.deep_view(), key@) is None);
                assert(self@.skip(bi as int)[0] == block.deep_view());
                assert(self@.skip(bi as int).drop_first() =~= self@.skip(bi + 1));
            }
            bi = bi + 1;
        }
        proof {
            assert(self@.skip(nb as int) =~= Seq::<Seq<HeaderPartView>>::empty());
        }
        None
    }

    /// The canonical rendering: blocks joined with `"; "`, sub-parts with
    /// `", "`, pairs written `key=value`.
    pub fn to_string(&self) -> (r: String)
        ensures
            r@ == spec_render_blocks(self@),
    {
        let mut out = String::new();
        let nb = self.parts.len();
        let mut bi: usize = 0;
        while bi < nb
            invariant
                bi <= nb,
                nb == self@.len(),
                self@.len() == self.parts@.len(),
                out@ == spec_render_blocks(self@.take(bi as int)),
            decreases nb - bi,
        {
            if bi > 0 {
                out.append("; ");
            }
            let block = &self.parts[bi];
            proof {
                assert(self@[bi as int] == block.deep_view());
            }
            let ghost prefix = out@;
            let ni = block.len();
            let mut ii: usize = 0;
            while ii < ni
                invariant
                    ii <= ni,
                    ni == block.deep_view().len(),
                    ni == block@.len(),
                    out@ == prefix + spec_render_block(block.deep_view().take(ii as int)),
                decreases ni - ii,
            {
                if ii > 0 {
                    out.append(", ");
                }
                let item = &block[ii];
                proof {
                    assert(block.deep_view()[ii as int] == item@);
                }
                match item {
                    HeaderValuePart::Single(s) => out.append(s.as_str()),
                    HeaderValuePart::KeyValue(k, v) => {
                        out.append(k.as_str());
                        out.append("=");
                        out.append(v.as_str());
                    },
                }
                proof {
                    let t = block.deep_view();
                    assert(t.take(ii + 1).drop_last() =~= t.take(ii as int));
                    assert(t.take(ii + 1).last() == t[ii as int]);
                    if ii == 0 {
                        assert(prefix + Seq::<char>::empty() =~= prefix);
                        assert(out@ =~= prefix + spec_render_block(t.take(ii + 1)));
                    } else {
                        assert(out@ =~= prefix + spec_render_block(t.take(ii + 1)));
                    }
                }
                ii = ii + 1;
            }
            proof {
                let t = block.deep_view();
                assert(t.take(ni as int) =~= t);
                assert(self@.take(bi + 1).drop_last() =~= self@.take(bi as int));
                assert(self@.take(bi + 1).last() == self@[bi as int]);
                if bi == 0 {
                    assert(out@ =~= spec_render_blocks(self@.take(bi + 1)));
                } else {
                    assert(out@ =~= spec_render_blocks(self@.take(bi + 1)));
                }
            }
            bi = bi + 1;
        }
        proof {
            assert(self@.take(nb as int) =~= self@);
        }
        out
    }
}

/// The method denoted by a request-line token, by exact match.
pub open spec fn spec_method_of(tok: Seq<char>) -> Method {
    if tok == "CONNECT"@ {
        Method::Connect
    } else if tok == "DELETE"@ {
        Method::Delete
    } else if tok == "GET"@ {
        Method::Get
    } else if tok == "HEAD"@ {
        Method::Head
    } else if tok == "OPTIONS"@ {
        Method::Options
    } else if tok == "PATCH"@ {
        Method::Patch
    } else if tok == "PUT"@ {
        Method::Put
    } else if tok == "POST"@ {
        Method::Post
    } else if tok == "TRACE"@ {
        Method::Trace
    } else {
        Method::Invalid
    }
}

fn method_of_token(tok: &str) -> (m: Method)
    ensures
        m == spec_method_of(tok@),
{
    if str_eq(tok, "CONNECT") {
        Method::Connect
    } else if str_eq(tok, "DELETE") {
        Method::Delete
    } else if str_eq(tok, "GET") {
        Method::Get
    } else if str_eq(tok, "HEAD") {
        Method::Head
    } else if str_eq(tok, "OPTIONS") {
        Method::Options
    } else if str_eq(tok, "PATCH") {
        Method::Patch
    } else if str_eq(tok, "PUT") {
        Method::Put
    } else if str_eq(tok, "POST") {
        Method::Post
    } else if str_eq(tok, "TRACE") {
        Method::Trace
    } else {
        Method::Invalid
    }
}

/// The protocol denoted by a request-line token, by exact match.
pub open spec fn spec_protocol_of(tok: Seq<char>) -> Protocol {
    if tok == "HTTP/0.9"@ {
        Protocol::V0_9
    } else if tok == "HTTP/1.0"@ {
        Protocol::V1_0
    } else if tok == "HTTP/1.1"@ {
        Protocol::V1_1
    } else if tok == "HTTP/2.0"@ {
        Protocol::V2_0
    } else {
        Protocol::Invalid
    }
}

fn protocol_of_token(tok: &str) -> (p: Protocol)
    ensures
        p == spec_protocol_of(tok@),
{
    if str_eq(tok, "HTTP/0.9") {
        Protocol::V0_9
    } else if str_eq(tok, "HTTP/1.0") {
        Protocol::V1_0
    } else if str_eq(tok, "HTTP/1.1") {
        Protocol::V1_1
    } else if str_eq(tok, "HTTP/2.0") {
        Protocol::V2_0
    } else {
        Protocol::Invalid
    }
}

/// The textual label of a protocol variant.
pub open spec fn spec_protocol_text(p: Protocol) -> Seq<char> {
    match p {
        Protocol::V0_9 => "HTTP/0.9"@,
        Protocol::V1_0 => "HTTP/1.0"@,
        Protocol::V1_1 => "HTTP/1.1"@,
        Protocol::V2_0 => "HTTP/2.0"@,
        Protocol::Invalid => "INVALID"@,
    }
}

/// A parsed request line.  A `Line` is only ever produced with a valid
/// (non-`Invalid`) method and protocol.
#[derive(Debug)]
pub struct Line {
    pub method: Method,
    pub protocol: Protocol,
    pub raw: String,
    pub request_uri: String,
    pub request_uri_base: String,
    pub query_arguments: StrMap<String>,
    pub query_string: String,
}

/// The specification-level image of a `Line`.
pub struct LineView {
    pub method: Method,
    pub protocol: Protocol,
    pub raw: Seq<char>,
    pub request_uri: Seq<char>,
    pub request_uri_base: Seq<char>,
    pub query_arguments: Map<Seq<char>, Seq<char>>,
    pub query_string: Seq<char>,
}

impl View for Line {
    type V = LineView;

    open spec fn view(&self) -> LineView {
        LineView {
            method: self.method,
            protocol: self.protocol,
            raw: self.raw@,
            request_uri: self.request_uri@,
            request_uri_base: self.request_uri_base@,
            query_arguments: self.query_arguments@,
            query_string: self.query_string@,
        }
    }
}

impl Line {
    /// The query-argument table has unique keys.
    pub open spec fn wf(&self) -> bool {
        self.query_arguments.wf()
    }
}

/// One named part of a multipart body: its own header fields and its raw
/// payload bytes.
#[derive(Debug)]
pub struct MultiPartValue {
    pub body: Vec<u8>,
    pub headers: StrMap<HeaderValueParts>,
}

/// The specification-level image of a `MultiPartValue`.
pub struct PartValueView {
    pub body: Seq<u8>,
    pub headers: Map<Seq<char>, Seq<Seq<HeaderPartView>>>,
}

impl View for MultiPartValue {
    type V = PartValueView;

    open spec fn view(&self) -> PartValueView {
        PartValueView { body: self.body@, headers: self.headers@ }
    }
}

impl MultiPartValue {
    /// The header table has unique keys.
    pub open spec fn wf(&self) -> bool {
        self.headers.wf()
    }
}

/// A message body: either key/value text data, or a table of named multipart
/// parts.
#[derive(Debug)]
pub enum BodyContentType {
    SinglePart(StrMap<String>),
    MultiPart(StrMap<MultiPartValue>),
}

/// The specification-level image of a `BodyContentType`.
pub enum BodyView {
    SinglePart(Map<Seq<char>, Seq<char>>),
    MultiPart(Map<Seq<char>, PartValueView>),
}

impl View for BodyContentType {
    type V = BodyView;

    open spec fn view(&self) -> BodyView {
        match self {
            BodyContentType::SinglePart(m) => BodyView::SinglePart(m@),
            BodyContentType::MultiPart(m) => BodyView::MultiPart(m@),
        }
    }
}

impl BodyContentType {
    /// Every table inside has unique keys.
    pub open spec fn wf(&self) -> bool {
        match self {
            BodyContentType::SinglePart(m) => m.wf(),
            BodyContentType::MultiPart(m) => m.wf() && forall|i: int|
                0 <= i < m.elems().len() ==> (#[trigger] m.elems()[i]).wf(),
        }
    }
}

/// A decoded HTTP request message.
#[derive(Debug)]
pub struct Message {
    pub body: BodyContentType,
    pub headers: StrMap<HeaderValueParts>,
    pub request_line: Line,
}

/// The specification-level image of a `Message`.
pub struct MessageView {
    pub body: BodyView,
    pub headers: Map<Seq<char>, Seq<Seq<HeaderPartView>>>,
    pub request_line: LineView,
}

impl View for Message {
    type V = MessageView;

    open spec fn view(&self) -> MessageView {
        MessageView { body: self.body@, headers: self.headers@, request_line: self.request_line@ }
    }
}

impl Message {
    /// Every table inside has unique keys.
    pub open spec fn wf(&self) -> bool {
        self.body.wf() && self.headers.wf() && self.request_line.wf()
    }
}

/// One query item added to the argument table: the item is split at its
/// first `=` into a literal key/value pair, and a bare key (no `=` at all)
/// is given the literal value `1`.
pub open spec fn spec_query_insert(m: Map<Seq<char>, Seq<char>>, item: Seq<char>) -> Map<
    Seq<char>,
    Seq<char>,
> {
    let kv = spec_split_first(item, '=');
    match kv.1 {
        Some(v) => m.insert(kv.0, v),
        None => m.insert(item, "1"@),
    }
}

/// The argument table built from `&`-separated items, later items winning.
pub open spec fn spec_query_map(items: Seq<Seq<char>>) -> Map<Seq<char>, Seq<char>>
    decreases items.len(),
{
    if items.len() == 0 {
        Map::empty()
    } else {
        spec_query_insert(spec_query_map(items.drop_last()), items.last())
    }
}

/// The query tokenizer: empty input denotes no mapping at all; anything else
/// denotes the table of its `&`-separated items.
pub open spec fn spec_parse_query(s: Seq<char>) -> Option<Map<Seq<char>, Seq<char>>> {
    if s.len() == 0 {
        None
    } else {
        Some(spec_query_map(spec_split(s, '&')))
    }
}

/// One comma-separated sub-part: split at the first `=` into a trimmed pair,
/// or kept as one trimmed token.
pub open spec fn spec_parse_subpart(item: Seq<char>) -> HeaderPartView {
    let (l, rest) = spec_split_first(item, '=');
    match rest {
        Some(r) => HeaderPartView::KeyValue(spec_trim(l), spec_trim(r)),
        None => HeaderPartView::Single(spec_trim(item)),
    }
}

/// One semicolon-separated parameter block of a header value.
pub open spec fn spec_parse_block(block: Seq<char>) -> Seq<HeaderPartView> {
    spec_split(block, ',').map_values(|item: Seq<char>| spec_parse_subpart(item))
}

/// A whole header value: its `;`-separated blocks.
pub open spec fn spec_parse_header_value(value: Seq<char>) -> Seq<Seq<HeaderPartView>> {
    spec_split(value, ';').map_values(|b: Seq<char>| spec_parse_block(b))
}

/// A header line: `key: value` with the key canonicalized to Train-Case; a
/// line without `:` (or blank) is no header field.
pub open spec fn spec_parse_header_line(line: Seq<char>) -> Option<
    (Seq<char>, Seq<Seq<HeaderPartView>>),
> {
    let t = spec_trim(line);
    if t.len() == 0 {
        None
    } else {
        let (k, rest) = spec_split_first(t, ':');
        match rest {
            Some(v) => Some(
                (spec_capitalize_key(spec_trim(k)), spec_parse_header_value(spec_trim(v))),
            ),
            None => None,
        }
    }
}

/// The query arguments of a query string, or the empty table when it has
/// none.
pub open spec fn spec_query_args_or_empty(qs: Seq<char>) -> Map<Seq<char>, Seq<char>> {
    match spec_parse_query(qs) {
        Some(m) => m,
        None => Map::empty(),
    }
}

/// A request URI split at its first `?`: the base path and the query string
/// (empty when there is no `?`).
pub open spec fn spec_uri_parts(uri: Seq<char>) -> (Seq<char>, Seq<char>) {
    let (b, rest) = spec_split_first(uri, '?');
    match rest {
        Some(q) => (b, q),
        None => (uri, Seq::empty()),
    }
}

/// The `LineView` denoted by a request line whose method, protocol and
/// request URI are already known.
pub open spec fn spec_line_view(m: Method, p: Protocol, raw: Seq<char>, uri: Seq<char>) -> LineView {
    LineView {
        method: m,
        protocol: p,
        raw: raw,
        request_uri: uri,
        request_uri_base: spec_uri_parts(uri).0,
        query_arguments: spec_query_args_or_empty(spec_uri_parts(uri).1),
        query_string: spec_uri_parts(uri).1,
    }
}

/// The request-line parser: a trimmed line of three tokens maps method and
/// protocol through their tables and succeeds only when both are recognized;
/// a single token is the legacy simple form, forced to `GET` and `HTTP/0.9`;
/// any other token count is rejected.
pub open spec fn spec_parse_request_line(line: Seq<char>) -> Option<LineView> {
    let t = spec_trim(line);
    let parts = spec_split(t, ' ');
    if parts.len() == 3 {
        let method = spec_method_of(parts[0]);
        let protocol = spec_protocol_of(parts[2]);
        if method != Method::Invalid && protocol != Protocol::Invalid {
            Some(spec_line_view(method, protocol, t, parts[1]))
        } else {
            None
        }
    } else if parts.len() == 1 {
        let uri = trim_kind(parts[0], TrimKind::Nul);
        if uri.len() > 0 {
            Some(spec_line_view(Method::Get, Protocol::V0_9, t, uri))
        } else {
            None
        }
    } else {
        None
    }
}

/// The decoder's coarse position in the message: request line, header
/// fields, or body.
#[derive(Debug, PartialEq, Eq, Structural, Clone, Copy)]
pub enum ParserSection {
    Line,
    HeaderFields,
    MessageBody,
}

/// The sub-state of the multipart boundary scanner.
#[derive(Debug, PartialEq, Eq, Structural, Clone, Copy)]
pub enum MultiPartSection {
    End,
    EndSecondary,
    EndBoundary,
    Skipping,
    Start,
    StartSuffix,
}

/// How body bytes are consumed: split into lines, or scanned for a multipart
/// boundary token.
#[derive(Debug)]
enum ParserMode {
    Boundaries(Vec<u8>),
    Lines,
}

/// The specification-level image of a `ParserMode`.
pub enum ModeView {
    Boundaries(Seq<u8>),
    Lines,
}

impl View for ParserMode {
    type V = ModeView;

    closed spec fn view(&self) -> ModeView {
        match self {
            ParserMode::Boundaries(b) => ModeView::Boundaries(b@),
            ParserMode::Lines => ModeView::Lines,
        }
    }
}

/// The effect of dispatching one completed line to the section handlers: a
/// parsed request line advances to the header section; a blank header line
/// closes the headers, arms boundary mode when a `Content-Type` boundary
/// parameter is present, and advances to the body unless the method's
/// body-presence policy is `No`; other header lines are inserted; body lines
/// that tokenize as query data replace the body.
pub open spec fn spec_parse_line_step(
    line: Seq<char>,
    section: ParserSection,
    msg: MessageView,
    mode: ModeView,
) -> (ParserSection, MessageView, ModeView) {
    match section {
        ParserSection::Line => {
            match spec_parse_request_line(line) {
                Some(l) => (
                    ParserSection::HeaderFields,
                    MessageView { request_line: l, ..msg },
                    mode,
                ),
                None => (section, msg, mode),
            }
        },
        ParserSection::HeaderFields => {
            if spec_trim(line).len() == 0 {
                let found = msg.headers.contains_key("Content-Type"@)
                    && spec_lookup(msg.headers["Content-Type"@], "boundary"@) is Some;
                let mode2 = if found {
                    ModeView::Boundaries(
                        vstd::utf8::encode_utf8(
                            spec_lookup(msg.headers["Content-Type"@], "boundary"@)->Some_0,
                        ),
                    )
                } else {
                    mode
                };
                let body2 = if found {
                    BodyView::MultiPart(Map::empty())
                } else {
                    msg.body
                };
                let section2 = if spec_method_has_request_body(msg.request_line.method)
                    != SettingValence::No {
                    ParserSection::MessageBody
                } else {
                    section
                };
                (section2, MessageView { body: body2, ..msg }, mode2)
            } else {
                match spec_parse_header_line(line) {
                    Some(kv) => (
                        section,
                        MessageView { headers: msg.headers.insert(kv.0, kv.1), ..msg },
                        mode,
                    ),
                    None => (section, msg, mode),
                }
            }
        },
        ParserSection::MessageBody => {
            if line.len() > 0 && spec_parse_query(line) is Some {
                (
                    section,
                    MessageView {
                        body: BodyView::SinglePart(spec_parse_query(line)->Some_0),
                        ..msg
                    },
                    mode,
                )
            } else {
                (section, msg, mode)
            }
        },
    }
}

/// The full state of the message decoder while it walks the input buffer:
/// the message built so far, the parser section, the line/boundary mode, the
/// boundary scanner's sub-state and cursors, the carriage-return flag, and
/// whether the walk has terminated.
pub struct DecodeState {
    pub msg: MessageView,
    pub section: ParserSection,
    pub mode: ModeView,
    pub mp: MultiPartSection,
    pub start: int,
    pub start_boundary: int,
    pub start_data: int,
    pub end_data: int,
    pub last_cr: bool,
    pub done: bool,
}

/// The decoder's starting state: an empty message whose request line is
/// invalid until one parses.
pub open spec fn decode_init() -> DecodeState {
    DecodeState {
        msg: MessageView {
            body: BodyView::SinglePart(Map::empty()),
            headers: Map::empty(),
            request_line: LineView {
                method: Method::Invalid,
                protocol: Protocol::Invalid,
                raw: Seq::empty(),
                request_uri: Seq::empty(),
                request_uri_base: Seq::empty(),
                query_arguments: Map::empty(),
                query_string: Seq::empty(),
            },
        },
        section: ParserSection::Line,
        mode: ModeView::Lines,
        mp: MultiPartSection::Start,
        start: 0,
        start_boundary: 0,
        start_data: 0,
        end_data: 0,
        last_cr: false,
        done: false,
    }
}

/// One byte in line mode: a CRLF ends the current line and dispatches it; a
/// null byte or the buffer's last index dispatches the partial line and
/// terminates the walk.  A line that is not valid UTF-8 is dropped.
pub open spec fn decode_line_step(req: Seq<u8>, st: DecodeState, end: int) -> DecodeState {
    let b = req[end];
    let last_index: int = if req.len() == 0 {
        0
    } else {
        req.len() - 1
    };
    if b == 13 {
        DecodeState { last_cr: true, ..st }
    } else if b == 10 && st.last_cr {
        let sub = req.subrange(st.start, end - 1);
        if valid_utf8(sub) {
            let r = spec_parse_line_step(decode_utf8(sub), st.section, st.msg, st.mode);
            DecodeState {
                msg: r.1,
                section: r.0,
                mode: r.2,
                start: end + 1,
                start_boundary: end + 1,
                last_cr: false,
                ..st
            }
        } else {
            DecodeState { last_cr: false, ..st }
        }
    } else if b == 0 || end == last_index {
        let clean_end: int = if b == 0 {
            end
        } else {
            end + 1
        };
        let sub = req.subrange(st.start, clean_end);
        if valid_utf8(sub) {
            let r = spec_parse_line_step(decode_utf8(sub), st.section, st.msg, st.mode);
            DecodeState { msg: r.1, section: r.0, mode: r.2, done: true, ..st }
        } else {
            DecodeState { done: true, ..st }
        }
    } else {
        DecodeState { last_cr: false, ..st }
    }
}

/// Closes the part recorded between `sd` and `ed`: the slice is handed to
/// the part extractor and, when it yields a named part and the body is
/// multipart, the part is stored under its name.
pub open spec fn spec_close_part(req: Seq<u8>, msg: MessageView, sd: int, ed: int) -> MessageView {
    match spec_extract_part(req.subrange(sd, ed)) {
        Some(nv) => match msg.body {
            BodyView::MultiPart(vals) => MessageView {
                body: BodyView::MultiPart(vals.insert(nv.0, nv.1)),
                ..msg
            },
            _ => msg,
        },
        None => msg,
    }
}

/// One byte in boundary mode: the six-state scanner of the multipart body.
/// `Start` and `EndBoundary` match the boundary token byte by byte from a
/// candidate start offset, absorbing extra leading dashes; `StartSuffix`
/// consumes the CRLF after a boundary; `End` and `EndSecondary` look for the
/// CRLFs that may precede the next boundary; `Skipping` re-aligns at the
/// next CRLF.  A null byte terminates the walk.
pub open spec fn decode_boundary_step(
    req: Seq<u8>,
    st: DecodeState,
    boundary: Seq<u8>,
    end: int,
) -> DecodeState {
    let b = req[end];
    match st.mp {
        MultiPartSection::Skipping => {
            if b == 13 {
                DecodeState { last_cr: true, ..st }
            } else if b == 10 && st.last_cr {
                DecodeState {
                    mp: MultiPartSection::Start,
                    start_boundary: end + 1,
                    last_cr: false,
                    ..st
                }
            } else if b == 0 {
                DecodeState { done: true, ..st }
            } else {
                DecodeState { last_cr: false, ..st }
            }
        },
        MultiPartSection::Start => {
            let off = end - st.start_boundary;
            if 0 <= off < boundary.len() {
                if boundary[off] == b {
                    if off + 1 == boundary.len() {
                        DecodeState { mp: MultiPartSection::StartSuffix, ..st }
                    } else {
                        st
                    }
                } else if b == 45 && st.start_boundary < end {
                    if 0 <= off - 1 < boundary.len() {
                        if boundary[off - 1] == b {
                            DecodeState { start_boundary: st.start_boundary + 1, ..st }
                        } else {
                            DecodeState { mp: MultiPartSection::Skipping, ..st }
                        }
                    } else {
                        DecodeState { mp: MultiPartSection::Skipping, ..st }
                    }
                } else {
                    DecodeState { mp: MultiPartSection::Skipping, ..st }
                }
            } else if b == 0 {
                DecodeState { done: true, ..st }
            } else {
                DecodeState { mp: MultiPartSection::Skipping, ..st }
            }
        },
        MultiPartSection::StartSuffix => {
            if b == 13 {
                DecodeState { last_cr: true, ..st }
            } else if b == 10 && st.last_cr {
                DecodeState {
                    mp: MultiPartSection::End,
                    last_cr: false,
                    start_data: end,
                    ..st
                }
            } else if b == 0 {
                DecodeState { done: true, ..st }
            } else {
                DecodeState { mp: MultiPartSection::Skipping, last_cr: false, ..st }
            }
        },
        MultiPartSection::End => {
            if b == 13 {
                DecodeState { last_cr: true, ..st }
            } else if b == 10 && st.last_cr {
                DecodeState {
                    mp: MultiPartSection::EndSecondary,
                    last_cr: false,
                    end_data: end - 1,
                    start_boundary: end + 1,
                    ..st
                }
            } else if b == 0 {
                DecodeState { done: true, ..st }
            } else {
                st
            }
        },
        MultiPartSection::EndSecondary => {
            if b == 13 {
                DecodeState { last_cr: true, ..st }
            } else if b == 10 && st.last_cr {
                DecodeState { mp: MultiPartSection::EndBoundary, last_cr: false, ..st }
            } else if b == 0 {
                DecodeState { done: true, ..st }
            } else {
                DecodeState { mp: MultiPartSection::EndBoundary, last_cr: false, ..st }
            }
        },
        MultiPartSection::EndBoundary => {
            let off = end - st.start_boundary;
            if 0 <= off < boundary.len() {
                if boundary[off] == b {
                    if off + 1 == boundary.len() {
                        let msg2 = if st.start_data > 0 && st.start_data < st.end_data
                            && st.end_data < req.len() {
                            spec_close_part(req, st.msg, st.start_data, st.end_data)
                        } else {
                            st.msg
                        };
                        DecodeState { mp: MultiPartSection::StartSuffix, msg: msg2, ..st }
                    } else {
                        st
                    }
                } else if b == 45 && st.start_boundary < end {
                    if 0 <= off - 1 < boundary.len() {
                        if boundary[off - 1] == b {
                            DecodeState { start_boundary: st.start_boundary + 1, ..st }
                        } else {
                            DecodeState { mp: MultiPartSection::End, ..st }
                        }
                    } else {
                        DecodeState { mp: MultiPartSection::End, ..st }
                    }
                } else {
                    if b == 13 {
                        DecodeState { mp: MultiPartSection::End, last_cr: true, ..st }
                    } else {
                        DecodeState { mp: MultiPartSection::End, ..st }
                    }
                }
            } else if b == 0 {
                DecodeState { done: true, ..st }
            } else {
                DecodeState { mp: MultiPartSection::End, ..st }
            }
        },
    }
}

/// One byte of the decode walk, in whichever mode is armed.
pub open spec fn decode_step(req: Seq<u8>, st: DecodeState, end: int) -> DecodeState {
    if st.done {
        st
    } else {
        match st.mode {
            ModeView::Lines => decode_line_step(req, st, end),
            ModeView::Boundaries(boundary) => decode_boundary_step(req, st, boundary, end),
        }
    }
}

/// The decoder's state after its first `i` bytes.
pub open spec fn decode_state_at(req: Seq<u8>, i: int) -> DecodeState
    decreases i,
{
    if i <= 0 {
        decode_init()
    } else {
        decode_step(req, decode_state_at(req, i - 1), i - 1)
    }
}

/// Once the walk has terminated its state no longer changes.
pub proof fn lemma_decode_done_stable(req: Seq<u8>, i: int, j: int)
    requires
        0 <= i <= j,
    ensures
        decode_state_at(req, i).done ==> decode_state_at(req, j) == decode_state_at(req, i),
    decreases j - i,
{
    if i < j {
        lemma_decode_done_stable(req, i, j - 1);
    }
}

/// The message decoded from a whole buffer: the result of the byte walk,
/// produced only when the stored request line has a valid method and
/// protocol.
pub open spec fn spec_decode(req: Seq<u8>) -> Option<MessageView> {
    let m = decode_state_at(req, req.len() as int).msg;
    if m.request_line.method != Method::Invalid && m.request_line.protocol != Protocol::Invalid {
        Some(m)
    } else {
        None
    }
}

/// In the `End` state, bytes holding no carriage return and no null are
/// consumed without any effect.
proof fn lemma_scan_inert_end(req: Seq<u8>, i: int, j: int)
    requires
        0 <= i <= j <= req.len(),
        decode_state_at(req, i).mode is Boundaries,
        decode_state_at(req, i).mp == MultiPartSection::End,
        decode_state_at(req, i).last_cr == false,
        decode_state_at(req, i).done == false,
        forall|t: int| i <= t < j ==> req[t] != 13 && req[t] != 0,
    ensures
        decode_state_at(req, j) == decode_state_at(req, i),
    decreases j - i,
{
    if i < j {
        lemma_scan_inert_end(req, i, j - 1);
        assert(req[j - 1] != 13 && req[j - 1] != 0);
        assert(decode_state_at(req, j) == decode_step(req, decode_state_at(req, j - 1), j - 1));
    }
}

/// In the `Start` or `EndBoundary` state, a run of `d` extra dashes
/// followed by the boundary token is matched through, the extra dashes and
/// the initial offset `e` being absorbed at the end of the token's dash
/// run, and the match ends in `StartSuffix` — closing the recorded part
/// when it arrives from `EndBoundary`.  The token must open with more than
/// `e` dashes and hold a later non-dash byte.
proof fn lemma_scan_match_dashes(
    req: Seq<u8>,
    i: int,
    t: int,
    boundary: Seq<u8>,
    k: int,
    d: int,
    e: int,
)
    requires
        0 <= e < k,
        0 <= d,
        0 <= i - e,
        k < boundary.len(),
        forall|u: int| 0 <= u < k ==> boundary[u] == 45,
        boundary[k] != 45,
        1 <= t <= d + boundary.len(),
        i + d + boundary.len() <= req.len(),
        forall|u: int| 0 <= u < d ==> #[trigger] req[i + u] == 45,
        req.subrange(i + d, i + d + boundary.len()) == boundary,
        decode_state_at(req, i).mode == ModeView::Boundaries(boundary),
        decode_state_at(req, i).mp == MultiPartSection::Start || decode_state_at(req, i).mp
            == MultiPartSection::EndBoundary,
        decode_state_at(req, i).start_boundary == i - e,
        decode_state_at(req, i).done == false,
    ensures
        t < d + boundary.len() ==> decode_state_at(req, i + t) == (DecodeState {
            start_boundary: i - e + (if t <= k - e {
                0int
            } else if t <= k + d {
                t - (k - e)
            } else {
                d + e
            }),
            ..decode_state_at(req, i)
        }),
        t == d + boundary.len() ==> decode_state_at(req, i + t) == (DecodeState {
            mp: MultiPartSection::StartSuffix,
            start_boundary: i + d,
            msg: ({
                let st = decode_state_at(req, i);
                if st.mp == MultiPartSection::EndBoundary && st.start_data > 0 && st.start_data
                    < st.end_data && st.end_data < req.len() {
                    spec_close_part(req, st.msg, st.start_data, st.end_data)
                } else {
                    st.msg
                }
            }),
            ..decode_state_at(req, i)
        }),
    decreases t,
{
    let m = boundary.len() as int;
    let st0 = decode_state_at(req, i);
    if t > 1 {
        lemma_scan_match_dashes(req, i, t - 1, boundary, k, d, e);
    }
    let u = t - 1;
    let prev = decode_state_at(req, i + u);
    let a_prev: int = if u <= k - e {
        0
    } else if u <= k + d {
        u - (k - e)
    } else {
        d + e
    };
    assert(prev == (DecodeState { start_boundary: i - e + a_prev, ..st0 }));
    assert(decode_state_at(req, i + t) == decode_step(req, prev, i + u));
    if u < d {
        assert(req[i + u] == 45);
    } else {
        assert(req[i + u] == req.subrange(i + d, i + d + m)[u - d]);
    }
    if u < k - e {
        assert(i + u - prev.start_boundary == u + e);
        assert(boundary[u + e] == 45);
        assert(req[i + u] == 45);
    } else if u <= k + d - 1 {
        assert(i + u - prev.start_boundary == k);
        assert(req[i + u] == 45);
        assert(boundary[k - 1] == 45);
        assert(prev.start_boundary < i + u);
    } else {
        assert(a_prev == d + e);
        assert(i + u - prev.start_boundary == u - d);
        assert(req[i + u] == boundary[u - d]);
    }
}

/// One whole multipart part is scanned from the `StartSuffix` state: the
/// CRLF after the boundary, `h` header bytes, a blank line, `p` payload
/// bytes, another double CRLF, and the boundary token again, preceded by
/// `dc` extra dashes.  The scan ends back in `StartSuffix` having closed
/// exactly the part whose slice runs from the first LF to the end of the
/// payload.
#[verifier::rlimit(60)]
proof fn lemma_scan_part(req: Seq<u8>, i: int, h: int, p: int, boundary: Seq<u8>, k: int, dc: int)
    requires
        0 <= i,
        0 <= h,
        1 <= p,
        0 <= dc,
        3 <= k < boundary.len(),
        i + 10 + h + p + dc + boundary.len() <= req.len(),
        forall|u: int| 0 <= u < k ==> boundary[u] == 45,
        boundary[k] != 45,
        decode_state_at(req, i).mode == ModeView::Boundaries(boundary),
        decode_state_at(req, i).mp == MultiPartSection::StartSuffix,
        decode_state_at(req, i).last_cr == false,
        decode_state_at(req, i).done == false,
        req[i] == 13,
        req[i + 1] == 10,
        forall|t: int| i + 2 <= t < i + 2 + h ==> req[t] != 13 && req[t] != 0,
        req[i + 2 + h] == 13,
        req[i + 3 + h] == 10,
        req[i + 4 + h] == 13,
        req[i + 5 + h] == 10,
        forall|t: int| i + 6 + h <= t < i + 6 + h + p ==> req[t] != 13 && req[t] != 0,
        req[i + 6 + h] != 45,
        req[i + 6 + h + p] == 13,
        req[i + 7 + h + p] == 10,
        req[i + 8 + h + p] == 13,
        req[i + 9 + h + p] == 10,
        forall|u: int| 0 <= u < dc ==> #[trigger] req[i + 10 + h + p + u] == 45,
        req.subrange(i + 10 + h + p + dc, i + 10 + h + p + dc + boundary.len()) == boundary,
    ensures
        decode_state_at(req, i + 10 + h + p + dc + boundary.len()) == (DecodeState {
            mp: MultiPartSection::StartSuffix,
            start_boundary: i + 10 + h + p + dc,
            start_data: i + 1,
            end_data: i + 6 + h + p,
            msg: spec_close_part(req, decode_state_at(req, i).msg, i + 1, i + 6 + h + p),
            ..decode_state_at(req, i)
        }),
{
    let m = boundary.len() as int;
    let st0 = decode_state_at(req, i);
    assert(decode_state_at(req, i + 1) == decode_step(req, st0, i));
    assert(decode_state_at(req, i + 1) == (DecodeState { last_cr: true, ..st0 }));
    assert(decode_state_at(req, i + 2) == decode_step(req, decode_state_at(req, i + 1), i + 1));
    let st_end = DecodeState { mp: MultiPartSection::End, start_data: i + 1, last_cr: false, ..st0 };
    assert(decode_state_at(req, i + 2) == st_end);
    lemma_scan_inert_end(req, i + 2, i + 2 + h);
    assert(decode_state_at(req, i + 2 + h) == st_end);
    assert(decode_state_at(req, i + 3 + h) == decode_step(req, st_end, i + 2 + h));
    assert(decode_state_at(req, i + 3 + h) == (DecodeState { last_cr: true, ..st_end }));
    assert(decode_state_at(req, i + 4 + h) == decode_step(
        req,
        decode_state_at(req, i + 3 + h),
        i + 3 + h,
    ));
    let st_sec = DecodeState {
        mp: MultiPartSection::EndSecondary,
        end_data: i + 2 + h,
        start_boundary: i + 4 + h,
        last_cr: false,
        ..st_end
    };
    assert(decode_state_at(req, i + 4 + h) == st_sec);
    assert(decode_state_at(req, i + 5 + h) == decode_step(req, st_sec, i + 4 + h));
    assert(decode_state_at(req, i + 5 + h) == (DecodeState { last_cr: true, ..st_sec }));
    assert(decode_state_at(req, i + 6 + h) == decode_step(
        req,
        decode_state_at(req, i + 5 + h),
        i + 5 + h,
    ));
    let st_eb = DecodeState { mp: MultiPartSection::EndBoundary, last_cr: false, ..st_sec };
    assert(decode_state_at(req, i + 6 + h) == st_eb);
    assert(decode_state_at(req, i + 7 + h) == decode_step(req, st_eb, i + 6 + h));
    assert(i + 6 + h - st_eb.start_boundary == 2);
    assert(boundary[2] == 45);
    let st_end2 = DecodeState { mp: MultiPartSection::End, ..st_eb };
    assert(decode_state_at(req, i + 7 + h) == st_end2);
    lemma_scan_inert_end(req, i + 7 + h, i + 6 + h + p);
    assert(decode_state_at(req, i + 6 + h + p) == st_end2);
    assert(decode_state_at(req, i + 7 + h + p) == decode_step(req, st_end2, i + 6 + h + p));
    assert(decode_state_at(req, i + 7 + h + p) == (DecodeState { last_cr: true, ..st_end2 }));
    assert(decode_state_at(req, i + 8 + h + p) == decode_step(
        req,
        decode_state_at(req, i + 7 + h + p),
        i + 7 + h + p,
    ));
    let st_sec2 = DecodeState {
        mp: MultiPartSection::EndSecondary,
        end_data: i + 6 + h + p,
        start_boundary: i + 8 + h + p,
        last_cr: false,
        ..st_end2
    };
    assert(decode_state_at(req, i + 8 + h + p) == st_sec2);
    assert(decode_state_at(req, i + 9 + h + p) == decode_step(req, st_sec2, i + 8 + h + p));
    assert(decode_state_at(req, i + 9 + h + p) == (DecodeState { last_cr: true, ..st_sec2 }));
    assert(decode_state_at(req, i + 10 + h + p) == decode_step(
        req,
        decode_state_at(req, i + 9 + h + p),
        i + 9 + h + p,
    ));
    let st_eb2 = DecodeState { mp: MultiPartSection::EndBoundary, last_cr: false, ..st_sec2 };
    assert(decode_state_at(req, i + 10 + h + p) == st_eb2);
    lemma_scan_match_dashes(req, i + 10 + h + p, dc + m, boundary, k, dc, 2);
    assert(st_eb2.start_data > 0 && st_eb2.start_data < st_eb2.end_data && st_eb2.end_data
        < req.len());
}

/// The state of the part extractor's header scan: the header table built so
/// far, where the unconsumed bytes begin, whether the last byte was a
/// carriage return, and whether the blank line ending the headers was found.
pub struct ExtractState {
    pub headers: Map<Seq<char>, Seq<Seq<HeaderPartView>>>,
    pub start: int,
    pub last_cr: bool,
    pub done: bool,
}

/// The extractor's starting state.
pub open spec fn extract_init() -> ExtractState {
    ExtractState { headers: Map::empty(), start: 0, last_cr: false, done: false }
}

/// One byte of the part extractor's header scan: a CRLF ends the current
/// line, which — when it decodes as UTF-8 — either closes the header section
/// (blank) or is parsed as a header field; all other bytes only track the
/// carriage-return flag.
pub open spec fn extract_step(data: Seq<u8>, st: ExtractState, i: int) -> ExtractState {
    if st.done {
        st
    } else {
        let b = data[i];
        if b == 10 && st.last_cr {
            let sub = data.subrange(st.start, i);
            if valid_utf8(sub) {
                let line = decode_utf8(sub);
                if spec_trim(line).len() == 0 {
                    ExtractState { headers: st.headers, start: i + 1, last_cr: false, done: true }
                } else {
                    match spec_parse_header_line(line) {
                        Some(kv) => ExtractState {
                            headers: st.headers.insert(kv.0, kv.1),
                            start: i + 1,
                            last_cr: false,
                            done: false,
                        },
                        None => ExtractState {
                            headers: st.headers,
                            start: i + 1,
                            last_cr: false,
                            done: false,
                        },
                    }
                }
            } else {
                ExtractState {
                    headers: st.headers,
                    start: st.start,
                    last_cr: false,
                    done: false,
                }
            }
        } else if b == 13 {
            ExtractState { headers: st.headers, start: st.start, last_cr: true, done: false }
        } else {
            ExtractState { headers: st.headers, start: st.start, last_cr: false, done: false }
        }
    }
}

/// The extractor's state after its first `i` bytes.
pub open spec fn extract_state_at(data: Seq<u8>, i: int) -> ExtractState
    decreases i,
{
    if i <= 0 {
        extract_init()
    } else {
        extract_step(data, extract_state_at(data, i - 1), i - 1)
    }
}

/// Once the blank line is found the extractor's state no longer changes.
pub proof fn lemma_extract_done_stable(data: Seq<u8>, i: int, j: int)
    requires
        0 <= i <= j,
    ensures
        extract_state_at(data, i).done ==> extract_state_at(data, j) == extract_state_at(data, i),
    decreases j - i,
{
    if i < j {
        lemma_extract_done_stable(data, i, j - 1);
    }
}

/// In the extractor's header scan, bytes holding no carriage return are
/// consumed without any effect.
proof fn lemma_extract_inert(data: Seq<u8>, i: int, j: int)
    requires
        0 <= i <= j <= data.len(),
        extract_state_at(data, i).last_cr == false,
        extract_state_at(data, i).done == false,
        forall|t: int| i <= t < j ==> data[t] != 13,
    ensures
        extract_state_at(data, j) == extract_state_at(data, i),
    decreases j - i,
{
    if i < j {
        lemma_extract_inert(data, i, j - 1);
        assert(extract_state_at(data, j) == extract_step(data, extract_state_at(data, j - 1), j
            - 1));
    }
}

/// A lone carriage-return byte is valid UTF-8, decodes to the carriage
/// return character, and trims away.
proof fn lemma_cr_byte_facts()
    ensures
        valid_utf8(seq![13u8]),
        decode_utf8(seq![13u8]) == seq!['\r'],
        spec_trim(seq!['\r']).len() == 0,
{
    broadcast use vstd::utf8::encode_utf8_valid_utf8, vstd::utf8::encode_utf8_decode_utf8;

    assert(seq!['\r'].drop_first() =~= Seq::<char>::empty());
    assert('\r' as u32 == 13);
    assert(13u32 & 0x7F == 13u32) by (bit_vector);
    assert(vstd::utf8::has_width_1_encoding(13));
    assert(vstd::utf8::leading_byte_width_1(13) == 13u8);
    assert(vstd::utf8::encode_scalar(13) =~= seq![13u8]);
    assert(vstd::utf8::encode_utf8(Seq::<char>::empty()) =~= Seq::<u8>::empty());
    assert(seq!['\r'][0] == '\r');
    assert(vstd::utf8::encode_utf8(seq!['\r']) =~= vstd::utf8::encode_scalar(13)
        + Seq::<u8>::empty());
    assert(vstd::utf8::encode_utf8(seq!['\r']) =~= seq![13u8]);
    assert(valid_utf8(vstd::utf8::encode_utf8(seq!['\r'])));
    assert(decode_utf8(vstd::utf8::encode_utf8(seq!['\r'])) == seq!['\r']);
    assert(spec_trim(seq!['\r']) =~= Seq::<char>::empty()) by {
        assert(is_space_char('\r'));
        assert(seq!['\r'].drop_first() =~= Seq::<char>::empty());
        assert(trim_start_kind(Seq::<char>::empty(), TrimKind::Space) =~= Seq::<char>::empty());
        assert(trim_start_kind(seq!['\r'], TrimKind::Space) =~= Seq::<char>::empty());
        assert(trim_end_kind(Seq::<char>::empty(), TrimKind::Space) =~= Seq::<char>::empty());
    }
}

/// The part the extractor yields from a slice laid out as one header line
/// and a payload — an LF, `h` header-line bytes holding no carriage return,
/// a CRLF, a blank line, then at least one payload byte: the header line is
/// parsed into the part's header table, and the payload is returned exactly.
proof fn lemma_extract_one_header(data: Seq<u8>, h: int)
    requires
        0 <= h,
        h + 6 <= data.len(),
        data[0] == 10,
        forall|t: int| 1 <= t < 1 + h ==> data[t] != 13,
        data[1 + h] == 13,
        data[2 + h] == 10,
        data[3 + h] == 13,
        data[4 + h] == 10,
        valid_utf8(data.subrange(0, 2 + h)),
        spec_trim(decode_utf8(data.subrange(0, 2 + h))).len() > 0,
    ensures
        ({
            let line = decode_utf8(data.subrange(0, 2 + h));
            let hdrs = match spec_parse_header_line(line) {
                Some(kv) => Map::<Seq<char>, Seq<Seq<HeaderPartView>>>::empty().insert(kv.0, kv.1),
                None => Map::<Seq<char>, Seq<Seq<HeaderPartView>>>::empty(),
            };
            let name = spec_part_name(hdrs);
            spec_extract_part(data) == (if name.len() > 0 {
                Some((name, PartValueView { body: data.skip(5 + h), headers: hdrs }))
            } else {
                None
            })
        }),
{
    let st0 = extract_init();
    assert(extract_state_at(data, 0) == st0);
    assert(extract_state_at(data, 1) == extract_step(data, st0, 0));
    assert(extract_state_at(data, 1) == st0);
    lemma_extract_inert(data, 1, 1 + h);
    assert(extract_state_at(data, 1 + h) == st0);
    assert(extract_state_at(data, 2 + h) == extract_step(data, st0, 1 + h));
    let st_cr = ExtractState { headers: st0.headers, start: 0, last_cr: true, done: false };
    assert(extract_state_at(data, 2 + h) == st_cr);
    assert(extract_state_at(data, 3 + h) == extract_step(data, st_cr, 2 + h));
    let line = decode_utf8(data.subrange(0, 2 + h));
    let hdrs = match spec_parse_header_line(line) {
        Some(kv) => Map::<Seq<char>, Seq<Seq<HeaderPartView>>>::empty().insert(kv.0, kv.1),
        None => Map::<Seq<char>, Seq<Seq<HeaderPartView>>>::empty(),
    };
    let st_hdr = ExtractState { headers: hdrs, start: 3 + h, last_cr: false, done: false };
    assert(extract_state_at(data, 3 + h) == st_hdr) by {
        assert(st0.headers =~= Map::<Seq<char>, Seq<Seq<HeaderPartView>>>::empty());
        if spec_parse_header_line(line) is None {
            assert(hdrs =~= st0.headers);
        }
    }
    assert(extract_state_at(data, 4 + h) == extract_step(data, st_hdr, 3 + h));
    let st_cr2 = ExtractState { headers: hdrs, start: 3 + h, last_cr: true, done: false };
    assert(extract_state_at(data, 4 + h) == st_cr2);
    assert(extract_state_at(data, 5 + h) == extract_step(data, st_cr2, 4 + h));
    lemma_cr_byte_facts();
    assert(data.subrange(3 + h, 4 + h) =~= seq![13u8]);
    let st_done = ExtractState { headers: hdrs, start: 5 + h, last_cr: false, done: true };
    assert(extract_state_at(data, 5 + h) == st_done);
    lemma_extract_done_stable(data, 5 + h, data.len() as int);
    assert(extract_state_at(data, data.len() as int) == st_done);
    assert(data.skip(5 + h).len() > 0);
}

/// The name a part carries: the `name` parameter of its
/// `Content-Disposition` header, quotes stripped; empty when there is none.
pub open spec fn spec_part_name(headers: Map<Seq<char>, Seq<Seq<HeaderPartView>>>) -> Seq<char> {
    if headers.contains_key("Content-Disposition"@) {
        match spec_lookup(headers["Content-Disposition"@], "name"@) {
            Some(nm) => trim_kind(nm, TrimKind::Quote),
            None => Seq::empty(),
        }
    } else {
        Seq::empty()
    }
}

/// The part denoted by one multipart payload slice: its headers up to the
/// blank line, its body after it; nothing when the part has no resolvable
/// name or an empty body.
pub open spec fn spec_extract_part(data: Seq<u8>) -> Option<(Seq<char>, PartValueView)> {
    let st = extract_state_at(data, data.len() as int);
    let name = spec_part_name(st.headers);
    if name.len() > 0 {
        let body = data.skip(st.start);
        if body.len() > 0 {
            Some((name, PartValueView { body: body, headers: st.headers }))
        } else {
            None
        }
    } else {
        None
    }
}

/// Whether a request body is expected for `m`.
pub open spec fn spec_method_has_request_body(m: Method) -> SettingValence {
    match m {
        Method::Connect => SettingValence::Yes,
        Method::Delete => SettingValence::No,
        Method::Get => SettingValence::Optional,
        Method::Head => SettingValence::No,
        Method::Options => SettingValence::Optional,
        Method::Patch => SettingValence::Yes,
        Method::Post => SettingValence::Yes,
        Method::Put => SettingValence::Yes,
        Method::Trace => SettingValence::Yes,
        Method::Invalid => SettingValence::Optional,
    }
}

/// Whether a response body is expected for `m`.
pub open spec fn spec_method_has_response_body(m: Method) -> bool {
    match m {
        Method::Head => false,
        _ => true,
    }
}

/// Whether `m` is safe.
pub open spec fn spec_method_is_safe(m: Method) -> bool {
    match m {
        Method::Get => true,
        Method::Head => true,
        Method::Options => true,
        Method::Trace => true,
        Method::Invalid => true,
        _ => false,
    }
}

/// Whether `m` is idempotent.
pub open spec fn spec_method_is_idempotent(m: Method) -> bool {
    match m {
        Method::Connect => false,
        Method::Patch => false,
        Method::Post => false,
        _ => true,
    }
}

/// Whether responses to `m` are cacheable.
pub open spec fn spec_method_is_cacheable(m: Method) -> bool {
    match m {
        Method::Get => true,
        Method::Head => true,
        Method::Post => true,
        _ => false,
    }
}

impl Message {
    /// The body-presence policy of `method`: whether a request body is
    /// expected.
    pub fn method_has_request_body(method: &Method) -> (r: SettingValence)
        ensures
            r == spec_method_has_request_body(*method),
    {
        match method {
            Method::Connect => SettingValence::Yes,
            Method::Delete => SettingValence::No,
            Method::Get => SettingValence::Optional,
            Method::Head => SettingValence::No,
            Method::Options => SettingValence::Optional,
            Method::Patch => SettingValence::Yes,
            Method::Post => SettingValence::Yes,
            Method::Put => SettingValence::Yes,
            Method::Trace => SettingValence::Yes,
            Method::Invalid => SettingValence::Optional,
        }
    }

    /// Whether a response body is expected for `method`.
    pub fn _method_has_response_body(method: &Method) -> (r: bool)
        ensures
            r == spec_method_has_response_body(*method),
    {
        match method {
            Method::Head => false,
            _ => true,
        }
    }

    /// Whether `method` is safe.
    pub fn _method_is_safe(method: &Method) -> (r: bool)
        ensures
            r == spec_method_is_safe(*method),
    {
        match method {
            Method::Get => true,
            Method::Head => true,
            Method::Options => true,
            Method::Trace => true,
            Method::Invalid => true,
            _ => false,
        }
    }

    /// Whether `method` is idempotent.
    pub fn _method_is_idempotent(method: &Method) -> (r: bool)
        ensures
            r == spec_method_is_idempotent(*method),
    {
        match method {
            Method::Connect => false,
            Method::Patch => false,
            Method::Post => false,
            _ => true,
        }
    }

    /// Whether responses to `method` are cacheable.
    pub fn _method_is_cacheable(method: &Method) -> (r: bool)
        ensures
            r == spec_method_is_cacheable(*method),
    {
        match method {
            Method::Get => true,
            Method::Head => true,
            Method::Post => true,
            _ => false,
        }
    }

    /// The textual label of `protocol`.
    pub fn get_protocol_text(protocol: &Protocol) -> (r: String)
        ensures
            r@ == spec_protocol_text(*protocol),
    {
        match protocol {
            Protocol::V0_9 => String::from_str("HTTP/0.9"),
            Protocol::V1_0 => String::from_str("HTTP/1.0"),
            Protocol::V1_1 => String::from_str("HTTP/1.1"),
            Protocol::V2_0 => String::from_str("HTTP/2.0"),
            Protocol::Invalid => String::from_str("INVALID"),
        }
    }

    /// Tokenizes `&`-separated query data into an argument table: each item
    /// splits at its first `=` into a literal key/value pair, a bare key
    /// gets the value `1`, and empty input yields no table at all.
    fn get_query_args_from_string(subject: &str) -> (r: Option<StrMap<String>>)
        ensures
            match r {
                Some(m) => spec_parse_query(subject@) == Some(m@) && m.wf(),
                None => spec_parse_query(subject@) is None,
            },
    {
        let mut args: StrMap<String> = StrMap::new();
        if !subject.is_empty() {
            let items = split_str(subject, '&');
            let n = items.len();
            let ghost items_dv = items.deep_view();
            let mut i: usize = 0;
            proof {
                assert(items_dv.take(0) =~= Seq::<Seq<char>>::empty());
            }
            while i < n
                invariant
                    i <= n,
                    n == items_dv.len(),
                    n == items@.len(),
                    items_dv == items.deep_view(),
                    args@ == spec_query_map(items_dv.take(i as int)),
                    args.wf(),
                    i > 0 ==> args.kvs().len() >= 1,
                decreases n - i,
            {
                let item: &str = items[i];
                proof {
                    assert(items_dv[i as int] == item@);
                }
                let (key, value) = split_first_str(item, '=');
                match value {
                    Some(v) => args.insert(String::from_str(key), String::from_str(v)),
                    None => args.insert(String::from_str(item), String::from_str("1")),
                }
                proof {
                    assert(items_dv.take(i + 1).drop_last() =~= items_dv.take(i as int));
                    assert(items_dv.take(i + 1).last() == items_dv[i as int]);
                }
                i = i + 1;
            }
            proof {
                assert(items_dv.take(n as int) =~= items_dv);
            }
        }
        if args.len() > 0 {
            Some(args)
        } else {
            None
        }
    }

    /// Interprets a body line as key/value data, producing a single-part
    /// body when the line tokenizes to any arguments.
    pub fn get_message_body(body: &str) -> (r: Option<BodyContentType>)
        ensures
            match r {
                Some(b) => spec_parse_query(body@) matches Some(m) && b@ == BodyView::SinglePart(m)
                    && b.wf(),
                None => spec_parse_query(body@) is None,
            },
    {
        if let Some(args) = Message::get_query_args_from_string(body) {
            return Some(BodyContentType::SinglePart(args));
        }
        None
    }

    /// Parses a header line into its canonical Train-Case key and structured
    /// value; a blank line or one without `:` is no header field.
    pub fn get_header_field(line: &str) -> (r: Option<(String, HeaderValueParts)>)
        ensures
            match r {
                Some(kv) => spec_parse_header_line(line@) == Some((kv.0@, kv.1@)),
                None => spec_parse_header_line(line@) is None,
            },
    {
        let line = trim_str(line);
        if line.is_empty() {
            return None;
        }
        let (key_raw, rest) = split_first_str(line, ':');
        let value_raw = match rest {
            Some(v) => v,
            None => {
                return None;
            },
        };
        let header_key = capitalize_key(trim_str(key_raw));
        let header_value = trim_str(value_raw);

        let mut header_parts: Vec<Vec<HeaderValuePart>> = Vec::new();
        let blocks = split_str(header_value, ';');
        let ghost blocks_dv = blocks.deep_view();
        let nb = blocks.len();
        let mut bi: usize = 0;
        while bi < nb
            invariant
                bi <= nb,
                nb == blocks_dv.len(),
                nb == blocks@.len(),
                blocks_dv == blocks.deep_view(),
                header_parts.deep_view().len() == bi,
                forall|j: int|
                    0 <= j < bi ==> #[trigger] header_parts.deep_view()[j] == spec_parse_block(
                        blocks_dv[j],
                    ),
            decreases nb - bi,
        {
            let block: &str = blocks[bi];
            proof {
                assert(blocks_dv[bi as int] == block@);
            }
            let mut header_value_part: Vec<HeaderValuePart> = Vec::new();
            let subs = split_str(block, ',');
            let ghost subs_dv = subs.deep_view();
            let ns = subs.len();
            let mut si: usize = 0;
            while si < ns
                invariant
                    si <= ns,
                    ns == subs_dv.len(),
                    ns == subs@.len(),
                    subs_dv == subs.deep_view(),
                    header_value_part.deep_view().len() == si,
                    forall|j: int|
                        0 <= j < si ==> #[trigger] header_value_part.deep_view()[j]
                            == spec_parse_subpart(subs_dv[j]),
                decreases ns - si,
            {
                let item: &str = subs[si];
                proof {
                    assert(subs_dv[si as int] == item@);
                }
                let (l, r) = split_first_str(item, '=');
                let ghost old_parts = header_value_part.deep_view();
                match r {
                    Some(rv) => {
                        let param_key = String::from_str(trim_str(l));
                        let param_value = String::from_str(trim_str(rv));
                        header_value_part.push(HeaderValuePart::KeyValue(param_key, param_value));
                    },
                    None => {
                        header_value_part.push(
                            HeaderValuePart::Single(String::from_str(trim_str(item))),
                        );
                    },
                }
                proof {
                    assert(header_value_part.deep_view() =~= old_parts.push(
                        spec_parse_subpart(subs_dv[si as int]),
                    ));
                }
                si = si + 1;
            }
            let ghost old_blocks = header_parts.deep_view();
            proof {
                assert(header_value_part.deep_view() =~= spec_split(block@, ',').map_values(
                    |it: Seq<char>| spec_parse_subpart(it),
                ));
            }
            header_parts.push(header_value_part);
            proof {
                assert(header_parts.deep_view() =~= old_blocks.push(
                    spec_parse_block(blocks_dv[bi as int]),
                ));
            }
            bi = bi + 1;
        }
        proof {
            assert(header_parts.deep_view() =~= spec_split(header_value@, ';').map_values(
                |b: Seq<char>| spec_parse_block(b),
            ));
        }
        Some((header_key, HeaderValueParts { parts: header_parts }))
    }

    /// Parses a request line; the result carries the original URI, its base
    /// and query parts, and the tokenized query arguments, and exists only
    /// when method and protocol are both recognized.
    pub fn get_request_line(line: &str) -> (r: Option<Line>)
        ensures
            match r {
                Some(l) => spec_parse_request_line(line@) == Some(l@) && l.wf(),
                None => spec_parse_request_line(line@) is None,
            },
    {
        let line = trim_str(line);
        let parts = split_str(line, ' ');
        let ghost parts_dv = parts.deep_view();
        if parts.len() == 3 {
            let m: &str = parts[0];
            let u: &str = parts[1];
            let p: &str = parts[2];
            proof {
                assert(parts_dv[0] == m@);
                assert(parts_dv[1] == u@);
                assert(parts_dv[2] == p@);
            }
            let method = method_of_token(m);
            let protocol = protocol_of_token(p);
            if !matches!(method, Method::Invalid) && !matches!(protocol, Protocol::Invalid) {
                let built = Message::build_line(method, protocol, line, u);
                return Some(built);
            }
            None
        } else if parts.len() == 1 {
            let t: &str = parts[0];
            proof {
                assert(parts_dv[0] == t@);
            }
            let uri = trim_kind_str(t, TrimKind::Nul);
            if !uri.is_empty() {
                let built = Message::build_line(Method::Get, Protocol::V0_9, line, uri);
                return Some(built);
            }
            None
        } else {
            None
        }
    }

    /// Scans one multipart payload slice: header lines up to the first blank
    /// line become the part's header table, what follows is its raw body,
    /// and its name comes from the `Content-Disposition` header's `name`
    /// parameter with surrounding quotes stripped.  A part with no name or an
    /// empty body yields nothing.
    pub fn get_query_args_from_multipart_blob(data: &[u8]) -> (r: Option<(String, MultiPartValue)>)
        ensures
            match r {
                Some(nv) => spec_extract_part(data@) == Some((nv.0@, nv.1@)) && nv.1.wf(),
                None => spec_extract_part(data@) is None,
            },
    {
        let n = data.len();
        let mut headers: StrMap<HeaderValueParts> = StrMap::new();
        let mut last_cr: bool = false;
        let mut done: bool = false;
        let mut index: usize = 0;
        let mut start: usize = 0;
        while index < n && !done
            invariant
                index <= n,
                n == data@.len(),
                start <= index,
                headers.wf(),
                extract_state_at(data@, index as int) == (ExtractState {
                    headers: headers@,
                    start: start as int,
                    last_cr: last_cr,
                    done: done,
                }),
            decreases n - index,
        {
            let b = data[index];
            if b == 10 && last_cr {
                last_cr = false;
                if let Some(line) = utf8_str(&data[start..index]) {
                    let t = trim_str(line);
                    if t.is_empty() {
                        start = index + 1;
                        done = true;
                    } else {
                        if let Some((header_key, header_value)) = Message::get_header_field(line) {
                            headers.insert(header_key, header_value);
                        }
                        start = index + 1;
                    }
                }
            } else if b == 13 {
                last_cr = true;
            } else {
                last_cr = false;
            }
            index = index + 1;
        }
        proof {
            lemma_extract_done_stable(data@, index as int, n as int);
        }

        let mut name = String::new();
        if let Some(content_disposition) = headers.get("Content-Disposition") {
            if let Some(content_disposition_name) = content_disposition.get_key_value("name") {
                name = String::from_str(
                    trim_kind_str(content_disposition_name.as_str(), TrimKind::Quote),
                );
            }
        }
        proof {
            assert(name@ == spec_part_name(headers@));
        }
        if !name.as_str().is_empty() {
            let body = slice_to_vec(&data[start..n]);
            proof {
                assert(body@ =~= data@.skip(start as int));
            }
            if body.len() > 0 {
                return Some((name, MultiPartValue { body, headers }));
            }
        }
        None
    }

    /// Decodes a whole request buffer into a structured message.  The walk
    /// is byte by byte: lines are split on CRLF and dispatched to the
    /// section handlers until a multipart boundary arms the boundary
    /// scanner; a null byte or the end of the buffer finishes the walk.  A
    /// message is produced exactly when the stored request line has a valid
    /// method and protocol.
    pub fn from_tcp_stream(request: &[u8]) -> (r: Option<Message>)
        ensures
            match r {
                Some(msg) => spec_decode(request@) == Some(msg@) && msg.wf(),
                None => spec_decode(request@) is None,
            },
    {
        let mut message = Message {
            body: BodyContentType::SinglePart(StrMap::new()),
            headers: StrMap::new(),
            request_line: Line {
                method: Method::Invalid,
                protocol: Protocol::Invalid,
                raw: String::new(),
                request_uri: String::new(),
                request_uri_base: String::new(),
                query_arguments: StrMap::new(),
                query_string: String::new(),
            },
        };

        let n = request.len();
        let mut start: usize = 0;
        let mut start_boundary: usize = 0;
        let mut start_data: usize = 0;
        let mut section = ParserSection::Line;
        let mut end: usize = 0;
        let mut end_data: usize = 0;
        let last_index: usize = if n == 0 {
            0
        } else {
            n - 1
        };
        let mut last_cr: bool = false;
        let mut parser_mode = ParserMode::Lines;
        let mut multipart_section = MultiPartSection::Start;
        let mut done: bool = false;

        while end < n && !done
            invariant
                end <= n,
                n == request@.len(),
                last_index == if n == 0 {
                    0int
                } else {
                    n - 1
                },
                message.wf(),
                decode_state_at(request@, end as int) == (DecodeState {
                    msg: message@,
                    section: section,
                    mode: parser_mode@,
                    mp: multipart_section,
                    start: start as int,
                    start_boundary: start_boundary as int,
                    start_data: start_data as int,
                    end_data: end_data as int,
                    last_cr: last_cr,
                    done: done,
                }),
                start <= end,
                last_cr ==> end >= 1,
                (parser_mode@ is Lines && last_cr) ==> start + 1 <= end,
                start_boundary <= end,
            decreases n - end,
        {
            let b = request[end];
            match &parser_mode {
                ParserMode::Boundaries(boundary) => {
                    match multipart_section {
                        MultiPartSection::Skipping => {
                            if b == 13 {
                                last_cr = true;
                            } else if b == 10 && last_cr {
                                multipart_section = MultiPartSection::Start;
                                start_boundary = end + 1;
                                last_cr = false;
                            } else if b == 0 {
                                done = true;
                            } else {
                                last_cr = false;
                            }
                        },
                        MultiPartSection::Start => {
                            if let Some(boundary_byte) = boundary.get(end - start_boundary) {
                                if *boundary_byte == b {
                                    if end - start_boundary + 1 == boundary.len() {
                                        multipart_section = MultiPartSection::StartSuffix;
                                    }
                                } else if b == 45 && start_boundary < end {
                                    if let Some(prev_byte) = boundary.get(
                                        end - start_boundary - 1,
                                    ) {
                                        if *prev_byte == b {
                                            start_boundary = start_boundary + 1;
                                        } else {
                                            multipart_section = MultiPartSection::Skipping;
                                        }
                                    } else {
                                        multipart_section = MultiPartSection::Skipping;
                                    }
                                } else {
                                    multipart_section = MultiPartSection::Skipping;
                                }
                            } else if b == 0 {
                                done = true;
                            } else {
                                multipart_section = MultiPartSection::Skipping;
                            }
                        },
                        MultiPartSection::StartSuffix => {
                            if b == 13 {
                                last_cr = true;
                            } else if b == 10 && last_cr {
                                multipart_section = MultiPartSection::End;
                                last_cr = false;
                                start_data = end;
                            } else if b == 0 {
                                done = true;
                            } else {
                                last_cr = false;
                                multipart_section = MultiPartSection::Skipping;
                            }
                        },
                        MultiPartSection::End => {
                            if b == 13 {
                                last_cr = true;
                            } else if b == 10 && last_cr {
                                multipart_section = MultiPartSection::EndSecondary;
                                last_cr = false;
                                end_data = end - 1;
                                start_boundary = end + 1;
                            } else if b == 0 {
                                done = true;
                            }
                        },
                        MultiPartSection::EndSecondary => {
                            if b == 13 {
                                last_cr = true;
                            } else if b == 10 && last_cr {
                                multipart_section = MultiPartSection::EndBoundary;
                                last_cr = false;
                            } else if b == 0 {
                                done = true;
                            } else {
                                multipart_section = MultiPartSection::EndBoundary;
                                last_cr = false;
                            }
                        },
                        MultiPartSection::EndBoundary => {
                            if let Some(boundary_byte) = boundary.get(end - start_boundary) {
                                if *boundary_byte == b {
                                    if end - start_boundary + 1 == boundary.len() {
                                        multipart_section = MultiPartSection::StartSuffix;
                                        if start_data > 0 && start_data < end_data && end_data
                                            < request.len() {
                                            let data = &request[start_data..end_data];
                                            if let Some((query_key, query_value)) =
                                                Message::get_query_args_from_multipart_blob(data) {
                                                Message::add_multipart_value(
                                                    &mut message,
                                                    query_key,
                                                    query_value,
                                                );
                                            }
                                        }
                                    }
                                } else if b == 45 && start_boundary < end {
                                    if let Some(prev_byte) = boundary.get(
                                        end - start_boundary - 1,
                                    ) {
                                        if *prev_byte == b {
                                            start_boundary = start_boundary + 1;
                                        } else {
                                            multipart_section = MultiPartSection::End;
                                        }
                                    } else {
                                        multipart_section = MultiPartSection::End;
                                    }
                                } else {
                                    multipart_section = MultiPartSection::End;
                                    if b == 13 {
                                        last_cr = true;
                                    }
                                }
                            } else if b == 0 {
                                done = true;
                            } else {
                                multipart_section = MultiPartSection::End;
                            }
                        },
                    }
                },
                ParserMode::Lines => {
                    if b == 13 {
                        last_cr = true;
                    } else if b == 10 && last_cr {
                        let clean_end = end - 1;
                        if let Some(line) = utf8_str(&request[start..clean_end]) {
                            Message::parse_line(line, &mut section, &mut message, &mut parser_mode);
                            start = end + 1;
                            start_boundary = end + 1;
                        }
                        last_cr = false;
                    } else if b == 0 || end == last_index {
                        let clean_end = if b == 0 {
                            end
                        } else {
                            end + 1
                        };
                        if let Some(line) = utf8_str(&request[start..clean_end]) {
                            Message::parse_line(line, &mut section, &mut message, &mut parser_mode);
                        }
                        done = true;
                    } else {
                        last_cr = false;
                    }
                },
            }
            end = end + 1;
        }
        proof {
            lemma_decode_done_stable(request@, end as int, n as int);
        }

        if message.request_line.method != Method::Invalid && message.request_line.protocol
            != Protocol::Invalid {
            return Some(message);
        }
        None
    }

    /// Stores a named part into a multipart body; a message whose body is
    /// not multipart is left unchanged.
    fn add_multipart_value(message: &mut Message, key: String, value: MultiPartValue)
        requires
            old(message).wf(),
            value.wf(),
        ensures
            final(message).wf(),
            final(message)@ == (match old(message)@.body {
                BodyView::MultiPart(vals) => MessageView {
                    body: BodyView::MultiPart(vals.insert(key@, value@)),
                    ..old(message)@
                },
                _ => old(message)@,
            }),
    {
        match &mut message.body {
            BodyContentType::MultiPart(values) => {
                let ghost pre = *values;
                proof {
                    assert(old(message).body == BodyContentType::MultiPart(pre));
                }
                values.insert(key, value);
                proof {
                    assert forall|i: int|
                        0 <= i < values.elems().len() implies (#[trigger] values.elems()[i]).wf() by {
                        if values.elems()[i] != value {
                            assert(pre.elems().contains(values.elems()[i]));
                            let j = choose|j: int|
                                0 <= j < pre.elems().len() && pre.elems()[j] == values.elems()[i];
                            assert(pre.elems()[j].wf());
                        }
                    }
                }
            },
            _ => {},
        }
    }

    /// Dispatches one completed line to the handler of the current parser
    /// section, advancing section, message and parser mode together.
    fn parse_line(
        line: &str,
        section: &mut ParserSection,
        message: &mut Message,
        parser_mode: &mut ParserMode,
    )
        requires
            old(message).wf(),
        ensures
            final(message).wf(),
            ({
                let r = spec_parse_line_step(
                    line@,
                    *old(section),
                    old(message)@,
                    old(parser_mode)@,
                );
                *final(section) == r.0 && final(message)@ == r.1 && final(parser_mode)@ == r.2
            }),
    {
        match *section {
            ParserSection::Line => {
                if let Some(request_line_temp) = Message::get_request_line(line) {
                    message.request_line = request_line_temp;
                    *section = ParserSection::HeaderFields;
                }
            },
            ParserSection::HeaderFields => {
                let t = trim_str(line);
                if t.is_empty() {
                    let mut boundary_found: Option<String> = None;
                    if let Some(content_type_header) = message.headers.get("Content-Type") {
                        if let Some(boundary) = content_type_header.get_key_value("boundary") {
                            boundary_found = Some(boundary);
                        }
                    }
                    if let Some(boundary) = boundary_found {
                        *parser_mode = ParserMode::Boundaries(
                            slice_to_vec(boundary.as_str().as_bytes()),
                        );
                        message.body = BodyContentType::MultiPart(StrMap::new());
                        proof {
                            assert(message.body.wf());
                        }
                    }
                    let policy = Message::method_has_request_body(&message.request_line.method);
                    if policy != SettingValence::No {
                        *section = ParserSection::MessageBody;
                    }
                } else {
                    if let Some((header_key, header_value)) = Message::get_header_field(line) {
                        message.headers.insert(header_key, header_value);
                    }
                }
            },
            ParserSection::MessageBody => {
                if !line.is_empty() {
                    if let Some(body_args) = Message::get_message_body(line) {
                        message.body = body_args;
                    }
                }
            },
        }
    }

    /// Assembles a `Line` for a known-valid method and protocol, splitting
    /// the URI into base, query string and query arguments.
    fn build_line(method: Method, protocol: Protocol, raw: &str, uri: &str) -> (l: Line)
        ensures
            l@ == spec_line_view(method, protocol, raw@, uri@),
            l.wf(),
            l.method == method,
            l.protocol == protocol,
    {
        let (base, qs) = split_first_str(uri, '?');
        let (request_uri_base, query_string): (String, String) = match qs {
            Some(q) => (String::from_str(base), String::from_str(q)),
            None => (String::from_str(uri), String::new()),
        };
        let query_arguments = match Message::get_query_args_from_string(query_string.as_str()) {
            Some(m) => m,
            None => StrMap::new(),
        };
        Line {
            method,
            protocol,
            raw: String::from_str(raw),
            request_uri: String::from_str(uri),
            request_uri_base,
            query_arguments,
            query_string,
        }
    }
}

/// The header table one header line denotes: the table holding exactly the
/// parsed field, or the empty table when the line is no header field.
pub open spec fn spec_one_line_headers(line: Seq<char>) -> Map<Seq<char>, Seq<Seq<HeaderPartView>>> {
    match spec_parse_header_line(line) {
        Some(kv) => Map::<Seq<char>, Seq<Seq<HeaderPartView>>>::empty().insert(kv.0, kv.1),
        None => Map::<Seq<char>, Seq<Seq<HeaderPartView>>>::empty(),
    }
}

/// One part, scanned and extracted whole.  From the state just after a
/// boundary token was matched, the scanner consumes a CRLF, `h` header-line
/// bytes, a blank line, `p` payload bytes, a double CRLF and the boundary
/// token again — preceded by `dc` extra dashes, as in the conventional `--`
/// marker — and stores, under the name its header line carries, a part
/// whose body is exactly the payload bytes, interior LF bytes included.
pub proof fn lemma_part_segment(
    req: Seq<u8>,
    i: int,
    h: int,
    p: int,
    boundary: Seq<u8>,
    k: int,
    dc: int,
)
    requires
        0 <= i,
        0 <= h,
        1 <= p,
        0 <= dc,
        3 <= k < boundary.len(),
        i + 10 + h + p + dc + boundary.len() <= req.len(),
        forall|u: int| 0 <= u < k ==> boundary[u] == 45,
        boundary[k] != 45,
        decode_state_at(req, i).mode == ModeView::Boundaries(boundary),
        decode_state_at(req, i).mp == MultiPartSection::StartSuffix,
        decode_state_at(req, i).last_cr == false,
        decode_state_at(req, i).done == false,
        decode_state_at(req, i).msg.body is MultiPart,
        req[i] == 13,
        req[i + 1] == 10,
        forall|t: int| i + 2 <= t < i + 2 + h ==> req[t] != 13 && req[t] != 0,
        req[i + 2 + h] == 13,
        req[i + 3 + h] == 10,
        req[i + 4 + h] == 13,
        req[i + 5 + h] == 10,
        forall|t: int| i + 6 + h <= t < i + 6 + h + p ==> req[t] != 13 && req[t] != 0,
        req[i + 6 + h] != 45,
        req[i + 6 + h + p] == 13,
        req[i + 7 + h + p] == 10,
        req[i + 8 + h + p] == 13,
        req[i + 9 + h + p] == 10,
        forall|u: int| 0 <= u < dc ==> #[trigger] req[i + 10 + h + p + u] == 45,
        req.subrange(i + 10 + h + p + dc, i + 10 + h + p + dc + boundary.len()) == boundary,
        valid_utf8(req.subrange(i + 1, i + 3 + h)),
        spec_trim(decode_utf8(req.subrange(i + 1, i + 3 + h))).len() > 0,
        spec_part_name(spec_one_line_headers(decode_utf8(req.subrange(i + 1, i + 3 + h)))).len()
            > 0,
    ensures
        ({
            let st0 = decode_state_at(req, i);
            let stj = decode_state_at(req, i + 10 + h + p + dc + boundary.len());
            let hdrs = spec_one_line_headers(decode_utf8(req.subrange(i + 1, i + 3 + h)));
            let name = spec_part_name(hdrs);
            let payload = req.subrange(i + 6 + h, i + 6 + h + p);
            stj == (DecodeState {
                mp: MultiPartSection::StartSuffix,
                start_boundary: i + 10 + h + p + dc,
                start_data: i + 1,
                end_data: i + 6 + h + p,
                msg: MessageView {
                    body: BodyView::MultiPart(
                        st0.msg.body->MultiPart_0.insert(
                            name,
                            PartValueView { body: payload, headers: hdrs },
                        ),
                    ),
                    ..st0.msg
                },
                ..st0
            })
        }),
{
    let m = boundary.len() as int;
    let st0 = decode_state_at(req, i);
    lemma_scan_part(req, i, h, p, boundary, k, dc);
    let blob = req.subrange(i + 1, i + 6 + h + p);
    assert(blob.len() == 5 + h + p);
    assert(blob[0] == 10);
    assert(forall|t: int| 1 <= t < 1 + h ==> blob[t] == req[i + 1 + t] && blob[t] != 13);
    assert(blob[1 + h] == 13);
    assert(blob[2 + h] == 10);
    assert(blob[3 + h] == 13);
    assert(blob[4 + h] == 10);
    assert(blob.subrange(0, 2 + h) =~= req.subrange(i + 1, i + 3 + h));
    lemma_extract_one_header(blob, h);
    let hdrs = spec_one_line_headers(decode_utf8(req.subrange(i + 1, i + 3 + h)));
    let name = spec_part_name(hdrs);
    assert(blob.skip(5 + h) =~= req.subrange(i + 6 + h, i + 6 + h + p));
    assert(spec_extract_part(blob) == Some(
        (name, PartValueView { body: req.subrange(i + 6 + h, i + 6 + h + p), headers: hdrs }),
    ));
}

/// Multipart scanner round trip: a body that is the boundary token
/// (preceded by `d0` extra dashes, as in the conventional `--` marker), a
/// CRLF, one part's header line, a blank line, the part's payload, a double
/// CRLF and the boundary token again (preceded by `dc` extra dashes) is
/// scanned into exactly one stored part, whose body equals the payload byte
/// for byte.
pub proof fn lemma_multipart_scanner_round_trip(
    req: Seq<u8>,
    i: int,
    h: int,
    p: int,
    boundary: Seq<u8>,
    k: int,
    d0: int,
    dc: int,
)
    requires
        0 <= i,
        0 <= h,
        1 <= p,
        0 <= d0,
        0 <= dc,
        3 <= k < boundary.len(),
        i + d0 + boundary.len() + 10 + h + p + dc + boundary.len() <= req.len(),
        forall|u: int| 0 <= u < k ==> boundary[u] == 45,
        boundary[k] != 45,
        decode_state_at(req, i).mode == ModeView::Boundaries(boundary),
        decode_state_at(req, i).mp == MultiPartSection::Start,
        decode_state_at(req, i).start_boundary == i,
        decode_state_at(req, i).last_cr == false,
        decode_state_at(req, i).done == false,
        decode_state_at(req, i).msg.body is MultiPart,
        forall|u: int| 0 <= u < d0 ==> #[trigger] req[i + u] == 45,
        req.subrange(i + d0, i + d0 + boundary.len()) == boundary,
        req[i + d0 + boundary.len()] == 13,
        req[i + d0 + boundary.len() + 1] == 10,
        forall|t: int|
            i + d0 + boundary.len() + 2 <= t < i + d0 + boundary.len() + 2 + h ==> req[t] != 13
                && req[t] != 0,
        req[i + d0 + boundary.len() + 2 + h] == 13,
        req[i + d0 + boundary.len() + 3 + h] == 10,
        req[i + d0 + boundary.len() + 4 + h] == 13,
        req[i + d0 + boundary.len() + 5 + h] == 10,
        forall|t: int|
            i + d0 + boundary.len() + 6 + h <= t < i + d0 + boundary.len() + 6 + h + p ==> req[t]
                != 13 && req[t] != 0,
        req[i + d0 + boundary.len() + 6 + h] != 45,
        req[i + d0 + boundary.len() + 6 + h + p] == 13,
        req[i + d0 + boundary.len() + 7 + h + p] == 10,
        req[i + d0 + boundary.len() + 8 + h + p] == 13,
        req[i + d0 + boundary.len() + 9 + h + p] == 10,
        forall|u: int|
            0 <= u < dc ==> #[trigger] req[i + d0 + boundary.len() + 10 + h + p + u] == 45,
        req.subrange(
            i + d0 + boundary.len() + 10 + h + p + dc,
            i + d0 + boundary.len() + 10 + h + p + dc + boundary.len(),
        ) == boundary,
        valid_utf8(req.subrange(i + d0 + boundary.len() + 1, i + d0 + boundary.len() + 3 + h)),
        spec_trim(
            decode_utf8(
                req.subrange(i + d0 + boundary.len() + 1, i + d0 + boundary.len() + 3 + h),
            ),
        ).len() > 0,
        spec_part_name(
            spec_one_line_headers(
                decode_utf8(
                    req.subrange(i + d0 + boundary.len() + 1, i + d0 + boundary.len() + 3 + h),
                ),
            ),
        ).len() > 0,
    ensures
        ({
            let st0 = decode_state_at(req, i);
            let base = i + d0 + boundary.len();
            let stj = decode_state_at(req, base + 10 + h + p + dc + boundary.len());
            let hdrs = spec_one_line_headers(
                decode_utf8(req.subrange(base + 1, base + 3 + h)),
            );
            let name = spec_part_name(hdrs);
            let payload = req.subrange(base + 6 + h, base + 6 + h + p);
            stj.msg == (MessageView {
                body: BodyView::MultiPart(
                    st0.msg.body->MultiPart_0.insert(
                        name,
                        PartValueView { body: payload, headers: hdrs },
                    ),
                ),
                ..st0.msg
            }) && stj.mp == MultiPartSection::StartSuffix && stj.mode == st0.mode && stj.done
                == false && stj.last_cr == false && stj.section == st0.section
        }),
{
    let m = boundary.len() as int;
    lemma_scan_match_dashes(req, i, d0 + m, boundary, k, d0, 0);
    lemma_part_segment(req, i + d0 + m, h, p, boundary, k, dc);
}

/// Multipart scanner, two sequential parts: two part segments in a row —
/// each closing boundary preceded by its own run of extra dashes — the
/// second one's closing boundary carrying the terminating `--` suffix, are
/// scanned into two stored parts, each under its own name and with its own
/// payload.
#[verifier::rlimit(30)]
pub proof fn lemma_multipart_scanner_two_parts(
    req: Seq<u8>,
    i: int,
    h1: int,
    p1: int,
    h2: int,
    p2: int,
    boundary: Seq<u8>,
    k: int,
    d1: int,
    d2: int,
)
    requires
        0 <= i,
        0 <= h1,
        1 <= p1,
        0 <= h2,
        1 <= p2,
        0 <= d1,
        0 <= d2,
        3 <= k < boundary.len(),
        ({
            let j1 = i + 10 + h1 + p1 + d1 + boundary.len();
            let j2 = j1 + 10 + h2 + p2 + d2 + boundary.len();
            j2 + 2 <= req.len() && req[j2] == 45 && req[j2 + 1] == 45
        }),
        forall|u: int| 0 <= u < k ==> boundary[u] == 45,
        boundary[k] != 45,
        decode_state_at(req, i).mode == ModeView::Boundaries(boundary),
        decode_state_at(req, i).mp == MultiPartSection::StartSuffix,
        decode_state_at(req, i).last_cr == false,
        decode_state_at(req, i).done == false,
        decode_state_at(req, i).msg.body is MultiPart,
        req[i] == 13,
        req[i + 1] == 10,
        forall|t: int| i + 2 <= t < i + 2 + h1 ==> req[t] != 13 && req[t] != 0,
        req[i + 2 + h1] == 13,
        req[i + 3 + h1] == 10,
        req[i + 4 + h1] == 13,
        req[i + 5 + h1] == 10,
        forall|t: int| i + 6 + h1 <= t < i + 6 + h1 + p1 ==> req[t] != 13 && req[t] != 0,
        req[i + 6 + h1] != 45,
        req[i + 6 + h1 + p1] == 13,
        req[i + 7 + h1 + p1] == 10,
        req[i + 8 + h1 + p1] == 13,
        req[i + 9 + h1 + p1] == 10,
        forall|u: int| 0 <= u < d1 ==> #[trigger] req[i + 10 + h1 + p1 + u] == 45,
        req.subrange(i + 10 + h1 + p1 + d1, i + 10 + h1 + p1 + d1 + boundary.len()) == boundary,
        valid_utf8(req.subrange(i + 1, i + 3 + h1)),
        spec_trim(decode_utf8(req.subrange(i + 1, i + 3 + h1))).len() > 0,
        spec_part_name(spec_one_line_headers(decode_utf8(req.subrange(i + 1, i + 3 + h1)))).len()
            > 0,
        ({
            let j1 = i + 10 + h1 + p1 + d1 + boundary.len();
            req[j1] == 13 && req[j1 + 1] == 10 && (forall|t: int|
                j1 + 2 <= t < j1 + 2 + h2 ==> req[t] != 13 && req[t] != 0) && req[j1 + 2 + h2]
                == 13 && req[j1 + 3 + h2] == 10 && req[j1 + 4 + h2] == 13 && req[j1 + 5 + h2] == 10
                && (forall|t: int|
                j1 + 6 + h2 <= t < j1 + 6 + h2 + p2 ==> req[t] != 13 && req[t] != 0) && req[j1 + 6
                + h2] != 45 && req[j1 + 6 + h2 + p2] == 13 && req[j1 + 7 + h2 + p2] == 10 && req[j1
                + 8 + h2 + p2] == 13 && req[j1 + 9 + h2 + p2] == 10 && (forall|u: int|
                0 <= u < d2 ==> #[trigger] req[j1 + 10 + h2 + p2 + u] == 45) && req.subrange(
                j1 + 10 + h2 + p2 + d2,
                j1 + 10 + h2 + p2 + d2 + boundary.len(),
            ) == boundary && valid_utf8(req.subrange(j1 + 1, j1 + 3 + h2)) && spec_trim(
                decode_utf8(req.subrange(j1 + 1, j1 + 3 + h2)),
            ).len() > 0 && spec_part_name(
                spec_one_line_headers(decode_utf8(req.subrange(j1 + 1, j1 + 3 + h2))),
            ).len() > 0
        }),
    ensures
        ({
            let st0 = decode_state_at(req, i);
            let j1 = i + 10 + h1 + p1 + d1 + boundary.len();
            let j2 = j1 + 10 + h2 + p2 + d2 + boundary.len();
            let stj = decode_state_at(req, j2 + 2);
            let hdrs1 = spec_one_line_headers(decode_utf8(req.subrange(i + 1, i + 3 + h1)));
            let hdrs2 = spec_one_line_headers(decode_utf8(req.subrange(j1 + 1, j1 + 3 + h2)));
            let part1 = PartValueView {
                body: req.subrange(i + 6 + h1, i + 6 + h1 + p1),
                headers: hdrs1,
            };
            let part2 = PartValueView {
                body: req.subrange(j1 + 6 + h2, j1 + 6 + h2 + p2),
                headers: hdrs2,
            };
            stj.msg == (MessageView {
                body: BodyView::MultiPart(
                    st0.msg.body->MultiPart_0.insert(spec_part_name(hdrs1), part1).insert(
                        spec_part_name(hdrs2),
                        part2,
                    ),
                ),
                ..st0.msg
            }) && stj.done == false
        }),
{
    let m = boundary.len() as int;
    let j1 = i + 10 + h1 + p1 + d1 + m;
    let j2 = j1 + 10 + h2 + p2 + d2 + m;
    lemma_part_segment(req, i, h1, p1, boundary, k, d1);
    lemma_part_segment(req, j1, h2, p2, boundary, k, d2);
    let st2 = decode_state_at(req, j2);
    assert(decode_state_at(req, j2 + 1) == decode_step(req, st2, j2));
    let st_skip = DecodeState { mp: MultiPartSection::Skipping, last_cr: false, ..st2 };
    assert(decode_state_at(req, j2 + 1) == st_skip);
    assert(decode_state_at(req, j2 + 2) == decode_step(req, st_skip, j2 + 1));
    assert(decode_state_at(req, j2 + 2) == st_skip);
}

/// Every valid three-token request line parses: the method and protocol are
/// the images of the first and third tokens, and the base path, a `?`, and
/// the query string reconstruct the request URI (the `?` reappearing only
/// when the query string is non-empty, so a URI ending at its first `?` is
/// excluded).
pub proof fn lemma_three_token_request_line(line: Seq<char>)
    requires
        spec_split(spec_trim(line), ' ').len() == 3,
        spec_method_of(spec_split(spec_trim(line), ' ')[0]) != Method::Invalid,
        spec_protocol_of(spec_split(spec_trim(line), ' ')[2]) != Protocol::Invalid,
        !(spec_split_first(spec_split(spec_trim(line), ' ')[1], '?').1 matches Some(q) && q.len()
            == 0),
    ensures
        ({
            let parts = spec_split(spec_trim(line), ' ');
            spec_parse_request_line(line) matches Some(l) && l.method == spec_method_of(parts[0])
                && l.protocol == spec_protocol_of(parts[2]) && l.request_uri == parts[1]
                && l.request_uri == (if l.query_string.len() > 0 {
                l.request_uri_base + seq!['?'] + l.query_string
            } else {
                l.request_uri_base
            })
        }),
{
    let t = spec_trim(line);
    let parts = spec_split(t, ' ');
    let uri = parts[1];
    let i = sep_index(uri, '?');
    lemma_sep_index_props(uri, '?');
    if 0 <= i < uri.len() {
        assert(uri[i] == '?');
        assert(uri.take(i) + seq!['?'] + uri.skip(i + 1) =~= uri);
        assert(spec_uri_parts(uri).1.len() > 0);
    }
}

/// Every single-token request line is the legacy simple form: it parses
/// exactly when the null-trimmed token is non-empty, and then the method is
/// forced to `GET` and the protocol to `HTTP/0.9`.
pub proof fn lemma_single_token_request_line(line: Seq<char>)
    requires
        spec_split(spec_trim(line), ' ').len() == 1,
    ensures
        spec_parse_request_line(line) is Some <==> trim_kind(
            spec_split(spec_trim(line), ' ')[0],
            TrimKind::Nul,
        ).len() > 0,
        spec_parse_request_line(line) matches Some(l) ==> l.method == Method::Get && l.protocol
            == Protocol::V0_9,
{
}

/// The query tokenizer yields a mapping exactly for non-empty input: the
/// empty string denotes no mapping at all, never an empty table, so a
/// caller can tell "no query data" from "has some".
pub proof fn lemma_query_tokenizer_empty(s: Seq<char>)
    ensures
        spec_parse_query(s) is None <==> s.len() == 0,
        s.len() > 0 ==> spec_parse_query(s) == Some(spec_query_map(spec_split(s, '&'))),
{
}

/// A line in which no colon occurs (once trimmed) is never a header field.
pub proof fn lemma_header_line_without_colon(line: Seq<char>)
    requires
        !spec_trim(line).contains(':'),
    ensures
        spec_parse_header_line(line) is None,
{
    let t = spec_trim(line);
    if t.len() > 0 {
        lemma_sep_index_props(t, ':');
        if sep_index(t, ':') < t.len() {
            assert(t[sep_index(t, ':')] == ':');
            assert(t.contains(':'));
            assert(false);
        }
    }
}

/// A decoded message exists only with a recognized method and protocol: an
/// unrecognized method token or protocol label in the stored request line
/// means no message at all.
pub proof fn lemma_decode_requires_valid_line(req: Seq<u8>)
    ensures
        spec_decode(req) matches Some(m) ==> m.request_line.method != Method::Invalid
            && m.request_line.protocol != Protocol::Invalid,
{
}

/// An empty buffer, or one that opens with a null byte, decodes to no
/// message.
pub proof fn lemma_empty_or_null_buffer(req: Seq<u8>)
    requires
        req.len() == 0 || req[0] == 0,
    ensures
        spec_decode(req) is None,
{
    if req.len() == 0 {
    } else {
        let st0 = decode_init();
        let sub = req.subrange(0, 0);
        assert(sub =~= Seq::<u8>::empty());
        assert(valid_utf8(sub));
        let line = decode_utf8(sub);
        assert(line =~= Seq::<char>::empty());
        assert(spec_trim(line) =~= Seq::<char>::empty());
        let parts = spec_split(spec_trim(line), ' ');
        assert(parts =~= seq![Seq::<char>::empty()]);
        assert(trim_kind(parts[0], TrimKind::Nul) =~= Seq::<char>::empty());
        assert(spec_parse_request_line(line) is None);
        let st1 = decode_state_at(req, 1);
        assert(decode_state_at(req, 0) == st0);
        assert(st1 == decode_step(req, st0, 0));
        assert(st1.done);
        assert(st1.msg == st0.msg);
        lemma_decode_done_stable(req, 1, req.len() as int);
    }
}

} // verus!
