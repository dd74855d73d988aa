//! The HTTP response and its serialization.
//!
//! A [`Response`] owns a status code, an ordered header list, a body
//! source and an optional declared body length.  [`Response::add_header`]
//! applies the header-mutation policy: serialization-owned fields are
//! dropped, `Content-Length` is folded into the declared length, anything
//! else is appended with duplicates preserved.  [`Response::raw_print`]
//! emits the status line, the headers and the framed body onto a sink,
//! per [`spec_serialized`].

use vstd::prelude::*;

use crate::chunks::{copy_chunked, crlf, decode_chunked};
use crate::common::{
    Header, HeaderView, HTTPVersion, StatusCode, TransferEncoding, headers_view, clone_bytes,
    spec_reason_phrase, spec_suppresses_body, suppresses_body,
};
use crate::httpdate::{DateParts, format_http_date, spec_http_date};
use crate::named;
use crate::negotiate::spec_choose_transfer_encoding;
use crate::numfmt::{all_dec_digits, dec_value, dec_bytes, parse_dec, spec_dec};
use crate::sbytes;
use crate::stream::{BodySource, MemSource, NullSource, Sink, copy_bounded, take_at_most};

verus! {

use vstd::string::StringSliceAdditionalSpecFns;
use vstd::utf8::encode_utf8;

broadcast use vstd::seq_lib::group_seq_properties;

/// An HTTP response: status, ordered headers, a body source, and the
/// declared body length if one is known.
pub struct Response<R> {
    reader: R,
    status_code: StatusCode,
    headers: Vec<Header>,
    data_length: Option<usize>,
}

/// The mathematical content of a [`Response`], body aside.
pub struct ResponseModel {
    pub status: u16,
    pub headers: Seq<HeaderView>,
    pub length: Option<usize>,
}

/// Header fields owned by the serialization step; a caller can never
/// store them on a response.
pub open spec fn is_forbidden_field(f: Seq<u8>) -> bool {
    ||| named(f, "Accept-Ranges"@)
    ||| named(f, "Connection"@)
    ||| named(f, "Content-Range"@)
    ||| named(f, "Trailer"@)
    ||| named(f, "Transfer-Encoding"@)
    ||| named(f, "Upgrade"@)
}

/// Executable form of [`is_forbidden_field`].
fn is_forbidden_field_exec(f: &[u8]) -> (r: bool)
    ensures
        r == is_forbidden_field(f@),
{
    proof {
        reveal_strlit("Accept-Ranges");
        reveal_strlit("Connection");
        reveal_strlit("Content-Range");
        reveal_strlit("Trailer");
        reveal_strlit("Transfer-Encoding");
        reveal_strlit("Upgrade");
        assert(vstd::string::is_ascii("Accept-Ranges"));
        assert(vstd::string::is_ascii("Connection"));
        assert(vstd::string::is_ascii("Content-Range"));
        assert(vstd::string::is_ascii("Trailer"));
        assert(vstd::string::is_ascii("Transfer-Encoding"));
        assert(vstd::string::is_ascii("Upgrade"));
    }
    crate::is_named(f, "Accept-Ranges") || crate::is_named(f, "Connection") || crate::is_named(
        f,
        "Content-Range",
    ) || crate::is_named(f, "Trailer") || crate::is_named(f, "Transfer-Encoding")
        || crate::is_named(f, "Upgrade")
}

/// The declared length a `Content-Length` header value sets: its decimal
/// value if it parses and fits, else nothing.
pub open spec fn spec_content_length(v: Seq<u8>) -> Option<usize> {
    if v.len() > 0 && all_dec_digits(v) && dec_value(v) <= usize::MAX {
        Some(dec_value(v) as usize)
    } else {
        None
    }
}

/// The header-mutation policy, one header at a time: forbidden fields are
/// dropped, `Content-Length` overwrites the declared length when its
/// value parses (and is dropped either way), everything else is appended,
/// duplicates preserved.
pub open spec fn spec_add(m: ResponseModel, h: HeaderView) -> ResponseModel {
    if is_forbidden_field(h.field) {
        m
    } else if named(h.field, "Content-Length"@) {
        match spec_content_length(h.value) {
            Some(l) => ResponseModel { length: Some(l), ..m },
            None => m,
        }
    } else {
        ResponseModel { headers: m.headers.push(h), ..m }
    }
}

/// [`spec_add`] folded over a sequence of headers, in order.
pub open spec fn spec_add_all(m: ResponseModel, hs: Seq<HeaderView>) -> ResponseModel
    decreases hs.len(),
{
    if hs.len() == 0 {
        m
    } else {
        spec_add_all(spec_add(m, hs[0]), hs.drop_first())
    }
}

proof fn lemma_spec_add_all_snoc(m: ResponseModel, hs: Seq<HeaderView>, h: HeaderView)
    ensures
        spec_add_all(m, hs.push(h)) == spec_add(spec_add_all(m, hs), h),
    decreases hs.len(),
{
    if hs.len() == 0 {
        assert(hs.push(h)[0] == h);
        assert(hs.push(h).drop_first() =~= hs);
        assert(spec_add_all(m, hs.push(h)) == spec_add_all(spec_add(m, h), hs));
        assert(spec_add_all(spec_add(m, h), hs) == spec_add(m, h));
        assert(spec_add_all(m, hs) == m);
    } else {
        assert(hs.push(h)[0] == hs[0]);
        assert(hs.push(h).drop_first() =~= hs.drop_first().push(h));
        lemma_spec_add_all_snoc(spec_add(m, hs[0]), hs.drop_first(), h);
        assert(spec_add_all(m, hs.push(h)) == spec_add_all(
            spec_add(m, hs[0]),
            hs.drop_first().push(h),
        ));
        assert(spec_add_all(m, hs) == spec_add_all(spec_add(m, hs[0]), hs.drop_first()));
    }
}

/// One serialized header line: `field: value` and CRLF.
pub open spec fn spec_header_bytes(h: HeaderView) -> Seq<u8> {
    h.field + sbytes(": "@) + h.value + crlf()
}

/// The serialized header block, in order.
pub open spec fn spec_headers_bytes(hs: Seq<HeaderView>) -> Seq<u8>
    decreases hs.len(),
{
    if hs.len() == 0 {
        Seq::<u8>::empty()
    } else {
        spec_header_bytes(hs[0]) + spec_headers_bytes(hs.drop_first())
    }
}

proof fn lemma_headers_bytes_snoc(hs: Seq<HeaderView>, h: HeaderView)
    ensures
        spec_headers_bytes(hs.push(h)) == spec_headers_bytes(hs) + spec_header_bytes(h),
    decreases hs.len(),
{
    if hs.len() == 0 {
        assert(hs.push(h)[0] == h);
        assert(hs.push(h).drop_first() =~= hs);
        assert(spec_headers_bytes(hs.push(h)) =~= spec_headers_bytes(hs) + spec_header_bytes(h));
    } else {
        assert(hs.push(h)[0] == hs[0]);
        assert(hs.push(h).drop_first() =~= hs.drop_first().push(h));
        lemma_headers_bytes_snoc(hs.drop_first(), h);
        assert(spec_headers_bytes(hs.push(h)) =~= spec_headers_bytes(hs) + spec_header_bytes(h));
    }
}

/// The status line: `HTTP/<major>.<minor> <code> <reason>` and CRLF.
pub open spec fn spec_status_line(version: HTTPVersion, code: u16) -> Seq<u8> {
    sbytes("HTTP/"@) + spec_dec(version.0 as nat) + sbytes("."@) + spec_dec(version.1 as nat)
        + sbytes(" "@) + spec_dec(code as nat) + sbytes(" "@) + spec_reason_phrase(code) + crlf()
}

/// Everything before the body: status line, header block, blank line.
pub open spec fn spec_message_head(
    version: HTTPVersion,
    code: u16,
    hs: Seq<HeaderView>,
) -> Seq<u8> {
    spec_status_line(version, code) + spec_headers_bytes(hs) + crlf()
}

/// Whether some header in `hs` has the field `name`, up to case.
pub open spec fn spec_has_field(hs: Seq<HeaderView>, name: Seq<char>) -> bool {
    exists|i: int| 0 <= i < hs.len() && named(#[trigger] hs[i].field, name)
}

/// Whether some header of `headers` has the field `name`, up to case.
fn has_field(headers: &Vec<Header>, name: &str) -> (r: bool)
    requires
        vstd::string::is_ascii(name),
    ensures
        r == spec_has_field(headers_view(headers@), name@),
{
    let mut i: usize = 0;
    while i < headers.len()
        invariant
            i <= headers@.len(),
            forall|j: int| 0 <= j < i ==> !named(#[trigger] headers_view(headers@)[j].field, name@),
            vstd::string::is_ascii(name),
        decreases headers@.len() - i,
    {
        if crate::is_named(headers[i].field.as_slice(), name) {
            proof {
                assert(named(headers_view(headers@)[i as int].field, name@));
            }
            return true;
        }
        i += 1;
    }
    false
}

/// Writes the message head: status line, each header in order, blank line.
pub fn write_message_header<W: Sink>(
    writer: &mut W,
    http_version: &HTTPVersion,
    status_code: &StatusCode,
    headers: &Vec<Header>,
) -> (r: Result<(), ()>)
    ensures
        r is Ok ==> final(writer).out() == old(writer).out() + spec_message_head(
            *http_version,
            status_code.0,
            headers_view(headers@),
        ),
        r is Err ==> !old(writer).infallible(),
        final(writer).infallible() == old(writer).infallible(),
{
    proof {
        reveal_strlit("HTTP/");
        reveal_strlit(".");
        reveal_strlit(" ");
        reveal_strlit(": ");
        assert(vstd::string::is_ascii("HTTP/"));
        assert(vstd::string::is_ascii("."));
        assert(vstd::string::is_ascii(" "));
        assert(vstd::string::is_ascii(": "));
    }
    let mut buf: Vec<u8> = crate::ascii_bytes("HTTP/");
    append(&mut buf, dec_bytes(http_version.0 as u64));
    append(&mut buf, crate::ascii_bytes("."));
    append(&mut buf, dec_bytes(http_version.1 as u64));
    append(&mut buf, crate::ascii_bytes(" "));
    append(&mut buf, dec_bytes(status_code.0 as u64));
    append(&mut buf, crate::ascii_bytes(" "));
    append(&mut buf, status_code.default_reason_phrase());
    buf.push(13);
    buf.push(10);
    let ghost sl = spec_status_line(*http_version, status_code.0);
    proof {
        assert(buf@ =~= sl);
    }
    let mut i: usize = 0;
    while i < headers.len()
        invariant
            i <= headers@.len(),
            buf@ == sl + spec_headers_bytes(headers_view(headers@).take(i as int)),
        decreases headers@.len() - i,
    {
        proof {
            reveal_strlit(": ");
            assert(vstd::string::is_ascii(": "));
        }
        let ghost views = headers_view(headers@);
        let ghost before = buf@;
        append(&mut buf, clone_bytes(&headers[i].field));
        append(&mut buf, crate::ascii_bytes(": "));
        append(&mut buf, clone_bytes(&headers[i].value));
        buf.push(13);
        buf.push(10);
        proof {
            assert(buf@ =~= before + spec_header_bytes(views[i as int]));
            assert(views.take(i + 1) =~= views.take(i as int).push(views[i as int]));
            lemma_headers_bytes_snoc(views.take(i as int), views[i as int]);
            assert(buf@ =~= sl + spec_headers_bytes(views.take(i + 1)));
        }
        i += 1;
    }
    buf.push(13);
    buf.push(10);
    proof {
        let views = headers_view(headers@);
        assert(views.take(views.len() as int) =~= views);
        assert(buf@ =~= spec_message_head(*http_version, status_code.0, views));
    }
    writer.write_all(buf.as_slice())
}

/// Appends `tail` to `buf`.
fn append(buf: &mut Vec<u8>, tail: Vec<u8>)
    ensures
        final(buf)@ == old(buf)@ + tail@,
{
    crate::httpdate::append_vec(buf, tail)
}

/// The headers as serialization prepares them: a `Date` header (for the
/// moment `dt`) and a `Server` header are put in front when absent; on
/// upgrade a `Connection: upgrade` and an `Upgrade` header are put in
/// front of those, `Connection` first; and the framing header — chunked
/// coding announced, or the declared length — is appended last.
pub open spec fn spec_prepared_headers(
    m: ResponseModel,
    dt: DateParts,
    upgrade: Option<Seq<u8>>,
    te: Option<TransferEncoding>,
) -> Seq<HeaderView> {
    let hs1 = if spec_has_field(m.headers, "Date"@) {
        m.headers
    } else {
        seq![HeaderView { field: sbytes("Date"@), value: spec_http_date(dt) }] + m.headers
    };
    let hs2 = if spec_has_field(hs1, "Server"@) {
        hs1
    } else {
        seq![HeaderView { field: sbytes("Server"@), value: sbytes("tiny-http (Rust)"@) }] + hs1
    };
    let hs3 = match upgrade {
        Some(u) => seq![
            HeaderView { field: sbytes("Connection"@), value: sbytes("upgrade"@) },
            HeaderView { field: sbytes("Upgrade"@), value: u },
        ] + hs2,
        None => hs2,
    };
    match te {
        Some(TransferEncoding::Chunked) => hs3.push(
            HeaderView { field: sbytes("Transfer-Encoding"@), value: sbytes("chunked"@) },
        ),
        Some(TransferEncoding::Identity) => hs3.push(
            HeaderView {
                field: sbytes("Content-Length"@),
                value: spec_dec(m.length->Some_0 as nat),
            },
        ),
        None => hs3,
    }
}

/// What serialization appends to a sink, relating the bytes before
/// (`out0`) and after (`out1`): the message head for the prepared
/// headers, then the body — absent on upgrade or suppression, bounded by
/// the declared length under identity coding, or a chunked coding of the
/// whole body.
pub open spec fn spec_serialized(
    m: ResponseModel,
    body: Seq<u8>,
    version: HTTPVersion,
    req_headers: Seq<HeaderView>,
    do_not_send_body: bool,
    upgrade: Option<Seq<u8>>,
    dt: DateParts,
    out0: Seq<u8>,
    out1: Seq<u8>,
) -> bool {
    let te = if upgrade is Some {
        None
    } else {
        Some(spec_choose_transfer_encoding(req_headers, version, m.length, false))
    };
    let head = spec_message_head(version, m.status, spec_prepared_headers(m, dt, upgrade, te));
    let suppress = do_not_send_body || spec_suppresses_body(m.status);
    match te {
        None => out1 == out0 + head,
        Some(TransferEncoding::Identity) => {
            if suppress {
                out1 == out0 + head
            } else {
                out1 == out0 + head + take_at_most(body, m.length->Some_0 as nat)
            }
        },
        Some(TransferEncoding::Chunked) => {
            if suppress {
                out1 == out0 + head
            } else {
                exists|enc: Seq<u8>|
                    out1 == out0 + head + enc && #[trigger] decode_chunked(enc) == Some(body)
            }
        },
    }
}

impl<R> Response<R> {
    /// The status, headers and declared length, as mathematical values.
    pub closed spec fn model(&self) -> ResponseModel {
        ResponseModel {
            status: self.status_code.0,
            headers: headers_view(self.headers@),
            length: self.data_length,
        }
    }

    /// The body source.
    pub closed spec fn spec_reader(&self) -> &R {
        &self.reader
    }

    /// The declared body length, if one is known.
    pub fn data_length(&self) -> (r: Option<usize>)
        ensures
            r == self.model().length,
    {
        self.data_length
    }

    /// Adds a header, applying the whole mutation policy ([`spec_add`]):
    /// forbidden fields and `Content-Length` never reach the list.
    pub fn add_header(&mut self, header: Header)
        ensures
            final(self).model() == spec_add(old(self).model(), header@),
            final(self).spec_reader() == old(self).spec_reader(),
    {
        proof {
            reveal_strlit("Content-Length");
            assert(vstd::string::is_ascii("Content-Length"));
        }
        if is_forbidden_field_exec(header.field.as_slice()) {
            return ;
        }
        if crate::is_named(header.field.as_slice(), "Content-Length") {
            match parse_dec(header.value.as_slice()) {
                Some(val) => {
                    self.data_length = Some(val);
                },
                None => {},
            }
            return ;
        }
        self.headers.push(header);
        proof {
            assert(headers_view(self.headers@) =~= headers_view(old(self).headers@).push(
                header@,
            ));
        }
    }

    /// The same response with one more header (policy applied).
    pub fn with_header(self, header: Header) -> (r: Response<R>)
        ensures
            r.model() == spec_add(self.model(), header@),
            r.spec_reader() == self.spec_reader(),
    {
        let mut this = self;
        this.add_header(header);
        this
    }

    /// The same response with a different status code.
    pub fn with_status_code(self, code: StatusCode) -> (r: Response<R>)
        ensures
            r.model() == (ResponseModel { status: code.0, ..self.model() }),
            r.spec_reader() == self.spec_reader(),
    {
        let mut this = self;
        this.status_code = code;
        this
    }

    /// The same response with a different body source and declared length.
    pub fn with_data<S>(self, reader: S, data_length: Option<usize>) -> (r: Response<S>)
        ensures
            r.model() == (ResponseModel { length: data_length, ..self.model() }),
            *r.spec_reader() == reader,
    {
        Response {
            reader,
            headers: self.headers,
            status_code: self.status_code,
            data_length,
        }
    }

    /// Creates a response from its parts.  Every given header passes
    /// through the mutation policy, the `additional_headers` after the
    /// ordinary ones.
    pub fn new(
        status_code: StatusCode,
        headers: Vec<Header>,
        data: R,
        data_length: Option<usize>,
        additional_headers: Option<Vec<Header>>,
    ) -> (r: Response<R>)
        ensures
            r.model() == spec_add_all(
                spec_add_all(
                    ResponseModel {
                        status: status_code.0,
                        headers: Seq::<HeaderView>::empty(),
                        length: data_length,
                    },
                    headers_view(headers@),
                ),
                match additional_headers {
                    Some(hs) => headers_view(hs@),
                    None => Seq::<HeaderView>::empty(),
                },
            ),
            *r.spec_reader() == data,
    {
        let mut response = Response {
            reader: data,
            status_code,
            headers: Vec::new(),
            data_length,
        };
        proof {
            assert(headers_view(response.headers@) =~= Seq::<HeaderView>::empty());
        }
        add_all(&mut response, headers);
        match additional_headers {
            Some(hs) => {
                add_all(&mut response, hs);
            },
            None => {},
        }
        response
    }
}

/// Adds each header of `headers` in order, through the mutation policy.
fn add_all<R>(response: &mut Response<R>, headers: Vec<Header>)
    ensures
        final(response).model() == spec_add_all(old(response).model(), headers_view(headers@)),
        final(response).spec_reader() == old(response).spec_reader(),
{
    let ghost views = headers_view(headers@);
    let mut i: usize = 0;
    while i < headers.len()
        invariant
            i <= headers@.len(),
            views == headers_view(headers@),
            spec_add_all(old(response).model(), views) == spec_add_all(
                response.model(),
                views.skip(i as int),
            ),
            response.spec_reader() == old(response).spec_reader(),
        decreases headers@.len() - i,
    {
        let h = headers[i].clone();
        proof {
            assert(h@ == views[i as int]);
            assert(views.skip(i as int)[0] == views[i as int]);
            assert(views.skip(i as int).drop_first() =~= views.skip(i + 1));
        }
        response.add_header(h);
        i += 1;
    }
    proof {
        assert(views.skip(views.len() as int) =~= Seq::<HeaderView>::empty());
    }
}

impl<R: BodySource> Response<R> {
    /// Serializes the response onto `writer` for the given request
    /// context, stamping the `Date` header (when one must be added) with
    /// the current moment.
    ///
    /// On success the bytes appended to the sink satisfy
    /// [`spec_serialized`] for some well-formed moment; an infallible
    /// sink always succeeds.  Identity coding with an unknown length is
    /// unreachable by the negotiator's own rules unless the client's `TE`
    /// preference forces it, and that case the caller keeps out.
    pub fn raw_print<W: Sink>(
        self,
        writer: &mut W,
        http_version: HTTPVersion,
        request_headers: &[Header],
        do_not_send_body: bool,
        upgrade: Option<&str>,
    ) -> (r: Result<(), ()>)
        requires
            upgrade is None && spec_choose_transfer_encoding(
                headers_view(request_headers@),
                http_version,
                self.model().length,
                false,
            ) == TransferEncoding::Identity ==> self.model().length is Some,
        ensures
            r is Ok ==> exists|dt: DateParts|
                #[trigger] dt.wf() && spec_serialized(
                    self.model(),
                    self.spec_reader().remaining(),
                    http_version,
                    headers_view(request_headers@),
                    do_not_send_body,
                    spec_upgrade(upgrade),
                    dt,
                    old(writer).out(),
                    final(writer).out(),
                ),
            r is Err ==> !old(writer).infallible(),
            old(writer).infallible() ==> r is Ok,
            final(writer).infallible() == old(writer).infallible(),
    {
        let date = crate::httpdate::now_utc_parts();
        self.raw_print_with_date(writer, http_version, request_headers, do_not_send_body, upgrade, &date)
    }

    /// Serializes the response onto `writer`, dating it at `date`.
    pub fn raw_print_with_date<W: Sink>(
        self,
        writer: &mut W,
        http_version: HTTPVersion,
        request_headers: &[Header],
        do_not_send_body: bool,
        upgrade: Option<&str>,
        date: &DateParts,
    ) -> (r: Result<(), ()>)
        requires
            upgrade is None && spec_choose_transfer_encoding(
                headers_view(request_headers@),
                http_version,
                self.model().length,
                false,
            ) == TransferEncoding::Identity ==> self.model().length is Some,
        ensures
            r is Ok ==> spec_serialized(
                self.model(),
                self.spec_reader().remaining(),
                http_version,
                headers_view(request_headers@),
                do_not_send_body,
                spec_upgrade(upgrade),
                *date,
                old(writer).out(),
                final(writer).out(),
            ),
            r is Err ==> !old(writer).infallible(),
            old(writer).infallible() ==> r is Ok,
            final(writer).infallible() == old(writer).infallible(),
    {
        proof {
            reveal_strlit("Date");
            reveal_strlit("Server");
            reveal_strlit("tiny-http (Rust)");
            reveal_strlit("Connection");
            reveal_strlit("upgrade");
            reveal_strlit("Upgrade");
            reveal_strlit("Transfer-Encoding");
            reveal_strlit("chunked");
            reveal_strlit("Content-Length");
            assert(vstd::string::is_ascii("Date"));
            assert(vstd::string::is_ascii("Server"));
            assert(vstd::string::is_ascii("tiny-http (Rust)"));
            assert(vstd::string::is_ascii("Connection"));
            assert(vstd::string::is_ascii("upgrade"));
            assert(vstd::string::is_ascii("Upgrade"));
            assert(vstd::string::is_ascii("Transfer-Encoding"));
            assert(vstd::string::is_ascii("chunked"));
            assert(vstd::string::is_ascii("Content-Length"));
        }
        let mut this = self;
        let ghost m = this.model();
        let ghost body0 = this.reader.remaining();
        let transfer_encoding: Option<TransferEncoding> = match upgrade {
            Some(_) => None,
            None => Some(
                crate::negotiate::choose_transfer_encoding(
                    request_headers,
                    &http_version,
                    &this.data_length,
                    false,
                ),
            ),
        };
        if !has_field(&this.headers, "Date") {
            let date_header = Header { field: crate::ascii_bytes("Date"), value: format_http_date(date) };
            this.headers.insert(0, date_header);
        }
        proof {
            assert(headers_view(this.headers@) =~= spec_hs1(m, *date));
        }
        if !has_field(&this.headers, "Server") {
            this.headers.insert(0, Header::from_strs("Server", "tiny-http (Rust)"));
        }
        proof {
            assert(headers_view(this.headers@) =~= spec_hs2(m, *date));
        }
        match upgrade {
            Some(u) => {
                let upgrade_header = Header {
                    field: crate::ascii_bytes("Upgrade"),
                    value: vstd::string::StrSliceExecFns::as_bytes_vec(u),
                };
                this.headers.insert(0, upgrade_header);
                this.headers.insert(0, Header::from_strs("Connection", "upgrade"));
            },
            None => {},
        }
        proof {
            assert(headers_view(this.headers@) =~= spec_hs3(m, *date, spec_upgrade(upgrade)));
        }
        let do_not_send_body = do_not_send_body || suppresses_body(this.status_code.0);
        match transfer_encoding {
            Some(TransferEncoding::Chunked) => {
                this.headers.push(Header::from_strs("Transfer-Encoding", "chunked"));
            },
            Some(TransferEncoding::Identity) => {
                let data_length: usize = match this.data_length {
                    Some(l) => l,
                    None => {
                        proof {
                            assert(false);
                        }
                        return Err(());
                    },
                };
                let value = dec_bytes_usize(data_length);
                this.headers.push(Header { field: crate::ascii_bytes("Content-Length"), value });
            },
            None => {},
        }
        proof {
            assert(headers_view(this.headers@) =~= spec_prepared_headers(
                m,
                *date,
                spec_upgrade(upgrade),
                transfer_encoding,
            ));
        }
        match write_message_header(writer, &http_version, &this.status_code, &this.headers) {
            Ok(()) => {},
            Err(()) => {
                return Err(());
            },
        }
        let ghost head = spec_message_head(
            http_version,
            m.status,
            spec_prepared_headers(m, *date, spec_upgrade(upgrade), transfer_encoding),
        );
        if !do_not_send_body {
            match transfer_encoding {
                Some(TransferEncoding::Chunked) => {
                    match copy_chunked(&mut this.reader, writer) {
                        Ok(()) => {
                            proof {
                                let enc = choose|enc: Seq<u8>|
                                    final(writer).out() == (old(writer).out() + head) + enc
                                        && #[trigger] decode_chunked(enc) == Some(body0);
                                assert((old(writer).out() + head) + enc =~= old(writer).out()
                                    + head + enc);
                            }
                        },
                        Err(()) => {
                            return Err(());
                        },
                    }
                },
                Some(TransferEncoding::Identity) => {
                    let data_length: usize = match this.data_length {
                        Some(l) => l,
                        None => {
                            proof {
                                assert(false);
                            }
                            return Err(());
                        },
                    };
                    if data_length >= 1 {
                        match copy_bounded(&mut this.reader, writer, data_length) {
                            Ok(()) => {
                                proof {
                                    assert((old(writer).out() + head) + take_at_most(
                                        body0,
                                        data_length as nat,
                                    ) =~= old(writer).out() + head + take_at_most(
                                        body0,
                                        data_length as nat,
                                    ));
                                }
                            },
                            Err(()) => {
                                return Err(());
                            },
                        }
                    } else {
                        proof {
                            assert(take_at_most(body0, 0nat) =~= Seq::<u8>::empty());
                            assert(old(writer).out() + head + Seq::<u8>::empty() =~= old(
                                writer,
                            ).out() + head);
                        }
                    }
                },
                None => {},
            }
        }
        Ok(())
    }
}

/// The bytes of an upgrade protocol name, when one is given.
pub open spec fn spec_upgrade(upgrade: Option<&str>) -> Option<Seq<u8>> {
    match upgrade {
        Some(u) => Some(u.spec_bytes()),
        None => None,
    }
}

/// [`spec_prepared_headers`], first stage: `Date` in front when absent.
pub open spec fn spec_hs1(m: ResponseModel, dt: DateParts) -> Seq<HeaderView> {
    if spec_has_field(m.headers, "Date"@) {
        m.headers
    } else {
        seq![HeaderView { field: sbytes("Date"@), value: spec_http_date(dt) }] + m.headers
    }
}

/// [`spec_prepared_headers`], second stage: `Server` in front when absent.
pub open spec fn spec_hs2(m: ResponseModel, dt: DateParts) -> Seq<HeaderView> {
    let hs1 = spec_hs1(m, dt);
    if spec_has_field(hs1, "Server"@) {
        hs1
    } else {
        seq![HeaderView { field: sbytes("Server"@), value: sbytes("tiny-http (Rust)"@) }] + hs1
    }
}

/// [`spec_prepared_headers`], third stage: the upgrade pair in front.
pub open spec fn spec_hs3(
    m: ResponseModel,
    dt: DateParts,
    upgrade: Option<Seq<u8>>,
) -> Seq<HeaderView> {
    let hs2 = spec_hs2(m, dt);
    match upgrade {
        Some(u) => seq![
            HeaderView { field: sbytes("Connection"@), value: sbytes("upgrade"@) },
            HeaderView { field: sbytes("Upgrade"@), value: u },
        ] + hs2,
        None => hs2,
    }
}

/// Renders a `usize` in decimal.
fn dec_bytes_usize(n: usize) -> (r: Vec<u8>)
    ensures
        r@ == spec_dec(n as nat),
{
    dec_bytes(n as u64)
}

impl Response<MemSource> {
    /// A `200` response over an in-memory byte buffer; the declared
    /// length is the buffer's.
    pub fn from_data(data: Vec<u8>) -> (r: Response<MemSource>)
        ensures
            r.model() == (ResponseModel {
                status: 200,
                headers: Seq::<HeaderView>::empty(),
                length: Some(data@.len() as usize),
            }),
            r.spec_reader().remaining() == data@,
    {
        let data_len = data.len();
        Response::new(StatusCode(200), Vec::new(), MemSource::new(data), Some(data_len), None)
    }

    /// A `200` plain-text response over a string; the declared length is
    /// the string's byte length and a `Content-Type` header is set.
    pub fn from_string(data: String) -> (r: Response<MemSource>)
        ensures
            r.model().status == 200,
            r.model().headers =~= seq![
                HeaderView {
                    field: sbytes("Content-Type"@),
                    value: sbytes("text/plain; charset=UTF-8"@),
                },
            ],
            r.spec_reader().remaining() == encode_utf8(data@),
            r.model().length == Some(encode_utf8(data@).len() as usize),
    {
        proof {
            reveal_strlit("Content-Type");
            reveal_strlit("text/plain; charset=UTF-8");
            assert(vstd::string::is_ascii("Content-Type"));
            assert(vstd::string::is_ascii("text/plain; charset=UTF-8"));
        }
        let bytes = vstd::string::StrSliceExecFns::as_bytes_vec(data.as_str());
        let data_len = bytes.len();
        let mut headers: Vec<Header> = Vec::new();
        headers.push(Header::from_strs("Content-Type", "text/plain; charset=UTF-8"));
        let r = Response {
            reader: MemSource::new(bytes),
            status_code: StatusCode(200),
            headers,
            data_length: Some(data_len),
        };
        proof {
            assert(r.model().headers =~= seq![
                HeaderView {
                    field: sbytes("Content-Type"@),
                    value: sbytes("text/plain; charset=UTF-8"@),
                },
            ]);
        }
        r
    }
}

impl Response<NullSource> {
    /// A body-less response: declared length zero over the empty source.
    pub fn new_empty(status_code: StatusCode) -> (r: Response<NullSource>)
        ensures
            r.model() == (ResponseModel {
                status: status_code.0,
                headers: Seq::<HeaderView>::empty(),
                length: Some(0),
            }),
    {
        Response::new(status_code, Vec::new(), NullSource, Some(0), None)
    }
}

impl Clone for Response<NullSource> {
    /// A body-less response can be duplicated; the copy has the same
    /// status, headers and declared length.
    fn clone(&self) -> (r: Self)
        ensures
            r.model() == self.model(),
    {
        let mut headers: Vec<Header> = Vec::new();
        let mut i: usize = 0;
        while i < self.headers.len()
            invariant
                i <= self.headers@.len(),
                headers@.len() == i,
                forall|j: int| 0 <= j < i ==> #[trigger] headers@[j]@ == self.headers@[j]@,
            decreases self.headers@.len() - i,
        {
            headers.push(self.headers[i].clone());
            i += 1;
        }
        proof {
            assert forall|j: int| 0 <= j < headers@.len() implies headers_view(headers@)[j]
                == headers_view(self.headers@)[j] by {
                assert(headers@[j]@ == self.headers@[j]@);
            }
            assert(headers_view(headers@) =~= headers_view(self.headers@));
        }
        Response {
            reader: NullSource,
            status_code: self.status_code,
            headers,
            data_length: self.data_length,
        }
    }
}

/// Duplicates are preserved: adding the same ordinary header twice (one
/// neither forbidden nor `Content-Length`) stores two entries, in order.
pub proof fn lemma_duplicates_preserved(m: ResponseModel, h: HeaderView)
    requires
        !is_forbidden_field(h.field),
        !named(h.field, "Content-Length"@),
    ensures
        spec_add(spec_add(m, h), h).headers == m.headers.push(h).push(h),
        spec_add(spec_add(m, h), h).status == m.status,
        spec_add(spec_add(m, h), h).length == m.length,
{
}

/// A forbidden field never reaches the response: adding it changes
/// nothing, so — the serialized bytes being a function of the model — it
/// can never appear in the output.
pub proof fn lemma_forbidden_header_dropped(m: ResponseModel, h: HeaderView)
    requires
        is_forbidden_field(h.field),
    ensures
        spec_add(m, h) == m,
{
}

/// A status that forbids a body (1xx, 204, 304) is serialized as the
/// message head alone: zero body bytes follow it, whatever the body
/// source held and whichever coding was negotiated.
pub proof fn lemma_suppressed_status_no_body(
    m: ResponseModel,
    body: Seq<u8>,
    version: HTTPVersion,
    req_headers: Seq<HeaderView>,
    do_not_send_body: bool,
    upgrade: Option<Seq<u8>>,
    dt: DateParts,
    out0: Seq<u8>,
    out1: Seq<u8>,
)
    requires
        spec_suppresses_body(m.status),
        spec_serialized(m, body, version, req_headers, do_not_send_body, upgrade, dt, out0, out1),
    ensures
        out1 == out0 + spec_message_head(
            version,
            m.status,
            spec_prepared_headers(
                m,
                dt,
                upgrade,
                if upgrade is Some {
                    None
                } else {
                    Some(spec_choose_transfer_encoding(req_headers, version, m.length, false))
                },
            ),
        ),
{
}

} // verus!
