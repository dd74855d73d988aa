//! Transfer-encoding negotiation.
//!
//! [`choose_transfer_encoding`] decides between identity and chunked
//! coding from, in priority order: the request's protocol version, the
//! client's `TE` preferences, whether trailing headers will follow, and
//! the declared body length against a fixed threshold.
//!
//! A `TE` value is a comma-separated list of `token[;q=weight]` elements.
//! Weights are quality values with at most three decimal places; they are
//! held in thousandths, so `q=0.5` is 500 and the default weight is 1000.
//! An element whose `q` parameter does not parse is dropped silently, and
//! a weight of zero rejects its encoding.

use vstd::prelude::*;

use vstd::slice::{slice_subrange, slice_to_vec};

use crate::common::{Header, HeaderView, HTTPVersion, TransferEncoding, headers_view};
use crate::named;

verus! {

broadcast use vstd::seq_lib::group_seq_properties;

/// Declared body lengths at or above this many bytes force chunked coding.
pub const CHUNKS_THRESHOLD: usize = 32768;

/// The index of the first occurrence of `c` in `s`, or `s.len()`.
pub open spec fn find(s: Seq<u8>, c: u8) -> int
    decreases s.len(),
{
    if s.len() == 0 {
        0
    } else if s[0] == c {
        0
    } else {
        1 + find(s.drop_first(), c)
    }
}

/// What [`find`] returns: the first occurrence, or the length.
pub proof fn lemma_find(s: Seq<u8>, c: u8)
    ensures
        0 <= find(s, c) <= s.len(),
        find(s, c) < s.len() ==> s[find(s, c)] == c,
        forall|j: int| 0 <= j < find(s, c) ==> s[j] != c,
    decreases s.len(),
{
    if s.len() > 0 && s[0] != c {
        lemma_find(s.drop_first(), c);
    }
}

/// Whether `b` is linear whitespace: space or horizontal tab.
pub open spec fn is_ws(b: u8) -> bool {
    b == 32 || b == 9
}

/// `s` without leading whitespace.
pub open spec fn trim_front(s: Seq<u8>) -> Seq<u8>
    decreases s.len(),
{
    if s.len() > 0 && is_ws(s[0]) {
        trim_front(s.drop_first())
    } else {
        s
    }
}

/// `s` without trailing whitespace.
pub open spec fn trim_back(s: Seq<u8>) -> Seq<u8>
    decreases s.len(),
{
    if s.len() > 0 && is_ws(s.last()) {
        trim_back(s.drop_last())
    } else {
        s
    }
}

/// `s` without leading or trailing whitespace.
pub open spec fn trim(s: Seq<u8>) -> Seq<u8> {
    trim_back(trim_front(s))
}

proof fn lemma_trim_front_skip(s: Seq<u8>, a: int)
    requires
        0 <= a <= s.len(),
        forall|j: int| 0 <= j < a ==> is_ws(#[trigger] s[j]),
        a < s.len() ==> !is_ws(s[a]),
    ensures
        trim_front(s) == s.skip(a),
    decreases a,
{
    if a == 0 {
        assert(s.skip(0) =~= s);
    } else {
        assert(is_ws(s[0]));
        lemma_trim_front_skip(s.drop_first(), a - 1);
        assert(s.drop_first().skip(a - 1) =~= s.skip(a));
    }
}

proof fn lemma_trim_back_take(s: Seq<u8>, b: int)
    requires
        0 <= b <= s.len(),
        forall|j: int| b <= j < s.len() ==> is_ws(#[trigger] s[j]),
        b > 0 ==> !is_ws(s[b - 1]),
    ensures
        trim_back(s) == s.take(b),
    decreases s.len() - b,
{
    if b == s.len() {
        assert(s.take(b) =~= s);
    } else {
        assert(is_ws(s.last()));
        lemma_trim_back_take(s.drop_last(), b);
        assert(s.drop_last().take(b) =~= s.take(b));
    }
}

/// Copies `s` without leading or trailing whitespace.
fn trim_bytes(s: &[u8]) -> (r: Vec<u8>)
    ensures
        r@ == trim(s@),
{
    let mut a: usize = 0;
    while a < s.len() && (s[a] == 32 || s[a] == 9)
        invariant
            a <= s@.len(),
            forall|j: int| 0 <= j < a ==> is_ws(#[trigger] s@[j]),
        decreases s@.len() - a,
    {
        a += 1;
    }
    let mut b: usize = s.len();
    while b > a && (s[b - 1] == 32 || s[b - 1] == 9)
        invariant
            a <= b <= s@.len(),
            forall|j: int| 0 <= j < a ==> is_ws(#[trigger] s@[j]),
            forall|j: int| b <= j < s@.len() ==> is_ws(#[trigger] s@[j]),
        decreases b,
    {
        b -= 1;
    }
    proof {
        lemma_trim_front_skip(s@, a as int);
        lemma_trim_back_take(s@.skip(a as int), b - a);
        assert(s@.skip(a as int).take(b - a) =~= s@.subrange(a as int, b as int));
    }
    slice_to_vec(slice_subrange(s, a, b))
}

/// Whether `b` is an ASCII decimal digit, spec shorthand.
use crate::numfmt::is_dec_digit;

/// Parses a quality value in thousandths: one digit, optionally followed
/// by a point and at most three more digits (`1`, `0.5`, `0.125`).
/// Anything else is malformed.
pub open spec fn parse_qvalue(s: Seq<u8>) -> Option<nat> {
    if s.len() < 1 || !is_dec_digit(s[0]) {
        None
    } else {
        let whole = (s[0] - 48) * 1000;
        if s.len() == 1 {
            Some(whole as nat)
        } else if s[1] != 46 || s.len() > 5 {
            None
        } else if !(forall|j: int| 2 <= j < s.len() ==> is_dec_digit(#[trigger] s[j])) {
            None
        } else if s.len() == 2 {
            Some(whole as nat)
        } else if s.len() == 3 {
            Some((whole + (s[2] - 48) * 100) as nat)
        } else if s.len() == 4 {
            Some((whole + (s[2] - 48) * 100 + (s[3] - 48) * 10) as nat)
        } else {
            Some((whole + (s[2] - 48) * 100 + (s[3] - 48) * 10 + (s[4] - 48)) as nat)
        }
    }
}

/// Executable form of [`parse_qvalue`].
fn parse_qvalue_exec(s: &[u8]) -> (r: Option<u32>)
    ensures
        match r {
            Some(w) => parse_qvalue(s@) == Some(w as nat),
            None => parse_qvalue(s@) is None,
        },
{
    if s.len() < 1 || s[0] < 48 || s[0] > 57 {
        return None;
    }
    let whole: u32 = (s[0] - 48) as u32 * 1000;
    if s.len() == 1 {
        return Some(whole);
    }
    if s[1] != 46 || s.len() > 5 {
        return None;
    }
    let mut j: usize = 2;
    while j < s.len()
        invariant
            2 <= j <= s@.len(),
            s@.len() <= 5,
            forall|k: int| 2 <= k < j ==> is_dec_digit(#[trigger] s@[k]),
        decreases s@.len() - j,
    {
        if s[j] < 48 || s[j] > 57 {
            return None;
        }
        j += 1;
    }
    if s.len() == 2 {
        Some(whole)
    } else if s.len() == 3 {
        Some(whole + (s[2] - 48) as u32 * 100)
    } else if s.len() == 4 {
        Some(whole + (s[2] - 48) as u32 * 100 + (s[3] - 48) as u32 * 10)
    } else {
        Some(whole + (s[2] - 48) as u32 * 100 + (s[3] - 48) as u32 * 10 + (s[4] - 48) as u32)
    }
}

/// The weight carried by an element's parameter list (everything after
/// the first `;`): the first `q=` parameter decides; no `q` parameter
/// means the default weight 1000; a malformed quality value poisons the
/// element.
pub open spec fn params_weight(s: Seq<u8>) -> Option<nat>
    decreases s.len(),
    via params_weight_decreases
{
    let i = find(s, 59);
    let p = trim(s.take(i));
    if p.len() >= 2 && crate::lower_byte(p[0]) == 113 && p[1] == 61 {
        parse_qvalue(p.skip(2))
    } else if i == s.len() {
        Some(1000)
    } else {
        params_weight(s.skip(i + 1))
    }
}

#[via_fn]
proof fn params_weight_decreases(s: Seq<u8>) {
    lemma_find(s, 59);
}

/// Executable form of [`params_weight`].
fn params_weight_exec(s: &[u8]) -> (r: Option<u32>)
    ensures
        match r {
            Some(w) => params_weight(s@) == Some(w as nat),
            None => params_weight(s@) is None,
        },
    decreases s@.len(),
{
    proof {
        lemma_find(s@, 59);
    }
    let i = find_byte(s, 59);
    let p = trim_bytes(slice_subrange(s, 0, i));
    if p.len() >= 2 && crate::lower_byte_exec(p[0]) == 113 && p[1] == 61 {
        proof {
            assert(p@.skip(2) == trim(s@.take(i as int)).skip(2));
        }
        parse_qvalue_exec(slice_subrange(p.as_slice(), 2, p.len()))
    } else if i == s.len() {
        Some(1000)
    } else {
        params_weight_exec(slice_subrange(s, i + 1, s.len()))
    }
}

/// The index of the first occurrence of `c` in the slice, or its length.
fn find_byte(s: &[u8], c: u8) -> (r: usize)
    ensures
        r as int == find(s@, c),
{
    let mut i: usize = 0;
    while i < s.len()
        invariant
            i <= s@.len(),
            forall|j: int| 0 <= j < i ==> s@[j] != c,
        decreases s@.len() - i,
    {
        if s[i] == c {
            proof {
                lemma_find(s@, c);
                let f = find(s@, c);
                if f < i {
                    assert(s@[f] == c);
                } else if f > i {
                    assert(s@[i as int] != c);
                }
            }
            return i;
        }
        i += 1;
    }
    proof {
        lemma_find(s@, c);
        let f = find(s@, c);
        if f < s@.len() {
            assert(s@[f] == c);
        }
    }
    s.len()
}

/// One parsed `TE` element: an encoding token and its weight in
/// thousandths.
pub struct TeEntry {
    pub token: Vec<u8>,
    pub millis: u32,
}

/// The mathematical content of a [`TeEntry`].
pub struct TeEntryView {
    pub token: Seq<u8>,
    pub millis: nat,
}

impl View for TeEntry {
    type V = TeEntryView;

    open spec fn view(&self) -> TeEntryView {
        TeEntryView { token: self.token@, millis: self.millis as nat }
    }
}

/// One element of a `TE` list: the token before the first `;`, trimmed,
/// with the weight of its parameters.  `None` if the element is dropped
/// for a malformed quality value.
pub open spec fn parse_elem(s: Seq<u8>) -> Option<TeEntryView> {
    let i = find(s, 59);
    let token = trim(s.take(i));
    if i == s.len() {
        Some(TeEntryView { token, millis: 1000 })
    } else {
        match params_weight(s.skip(i + 1)) {
            Some(w) => Some(TeEntryView { token, millis: w }),
            None => None,
        }
    }
}

/// Executable form of [`parse_elem`].
fn parse_elem_exec(s: &[u8]) -> (r: Option<TeEntry>)
    ensures
        match r {
            Some(e) => parse_elem(s@) == Some(e@),
            None => parse_elem(s@) is None,
        },
{
    proof {
        lemma_find(s@, 59);
    }
    let i = find_byte(s, 59);
    let token = trim_bytes(slice_subrange(s, 0, i));
    if i == s.len() {
        Some(TeEntry { token, millis: 1000 })
    } else {
        match params_weight_exec(slice_subrange(s, i + 1, s.len())) {
            Some(w) => Some(TeEntry { token, millis: w }),
            None => None,
        }
    }
}

/// The comma-separated elements of a `TE` header value, in order, with
/// malformed elements dropped.
pub open spec fn parse_te(s: Seq<u8>) -> Seq<TeEntryView>
    decreases s.len(),
    via parse_te_decreases
{
    let i = find(s, 44);
    let head: Seq<TeEntryView> = match parse_elem(s.take(i)) {
        Some(e) => seq![e],
        None => Seq::empty(),
    };
    if i == s.len() {
        head
    } else {
        head + parse_te(s.skip(i + 1))
    }
}

#[via_fn]
proof fn parse_te_decreases(s: Seq<u8>) {
    lemma_find(s, 44);
}

/// The views of a sequence of parsed entries.
pub open spec fn entries_view(es: Seq<TeEntry>) -> Seq<TeEntryView> {
    es.map_values(|e: TeEntry| e@)
}

/// Executable form of [`parse_te`].
pub fn parse_te_exec(s: &[u8]) -> (r: Vec<TeEntry>)
    ensures
        entries_view(r@) == parse_te(s@),
    decreases s@.len(),
{
    proof {
        lemma_find(s@, 44);
    }
    let i = find_byte(s, 44);
    let head = parse_elem_exec(slice_subrange(s, 0, i));
    if i == s.len() {
        let mut v: Vec<TeEntry> = Vec::new();
        match head {
            Some(e) => {
                v.push(e);
            },
            None => {},
        }
        proof {
            assert(entries_view(v@) =~= parse_te(s@));
        }
        v
    } else {
        let mut v = parse_te_exec(slice_subrange(s, i + 1, s.len()));
        match head {
            Some(e) => {
                v.insert(0, e);
            },
            None => {},
        }
        proof {
            assert(entries_view(v@) =~= parse_te(s@));
        }
        v
    }
}

/// The client's selected encoding: scanning the entries, an entry with a
/// supported token and positive weight displaces the current choice only
/// when its weight is strictly greater — so the highest positive weight
/// wins, and among equal weights the earliest entry.  This equals sorting
/// stably by descending weight and taking the first supported entry with
/// positive weight.
pub open spec fn spec_select(entries: Seq<TeEntryView>) -> Option<(TransferEncoding, nat)>
    decreases entries.len(),
{
    if entries.len() == 0 {
        None
    } else {
        let e = entries[0];
        let rest = spec_select(entries.drop_first());
        match TransferEncoding::spec_from_token(e.token) {
            Some(te) => {
                if e.millis > 0 {
                    match rest {
                        Some(p) => {
                            if p.1 > e.millis {
                                Some(p)
                            } else {
                                Some((te, e.millis))
                            }
                        },
                        None => Some((te, e.millis)),
                    }
                } else {
                    rest
                }
            },
            None => rest,
        }
    }
}

/// Executable form of [`spec_select`].
fn select_entries(entries: &[TeEntry]) -> (r: Option<(TransferEncoding, u32)>)
    ensures
        match r {
            Some(p) => spec_select(entries_view(entries@)) == Some((p.0, p.1 as nat)),
            None => spec_select(entries_view(entries@)) is None,
        },
    decreases entries@.len(),
{
    if entries.len() == 0 {
        return None;
    }
    let rest = select_entries(slice_subrange(entries, 1, entries.len()));
    proof {
        assert(entries_view(entries@.subrange(1, entries@.len() as int)) =~= entries_view(
            entries@,
        ).drop_first());
    }
    let e = &entries[0];
    match TransferEncoding::from_token(e.token.as_slice()) {
        Some(te) => {
            if e.millis > 0 {
                match rest {
                    Some(p) => {
                        if p.1 > e.millis {
                            Some(p)
                        } else {
                            Some((te, e.millis))
                        }
                    },
                    None => Some((te, e.millis)),
                }
            } else {
                rest
            }
        },
        None => rest,
    }
}

/// The value of the first header named `TE`, if any.
pub open spec fn find_te_value(headers: Seq<HeaderView>) -> Option<Seq<u8>>
    decreases headers.len(),
{
    if headers.len() == 0 {
        None
    } else if named(headers[0].field, "TE"@) {
        Some(headers[0].value)
    } else {
        find_te_value(headers.drop_first())
    }
}

/// Finds the first `TE` header and copies its value.
fn find_te_value_exec(headers: &[Header]) -> (r: Option<Vec<u8>>)
    ensures
        match r {
            Some(v) => find_te_value(headers_view(headers@)) == Some(v@),
            None => find_te_value(headers_view(headers@)) is None,
        },
    decreases headers@.len(),
{
    proof {
        reveal_strlit("TE");
        assert(vstd::string::is_ascii("TE"));
    }
    if headers.len() == 0 {
        return None;
    }
    if crate::is_named(headers[0].field.as_slice(), "TE") {
        Some(crate::common::clone_bytes(&headers[0].value))
    } else {
        let r = find_te_value_exec(slice_subrange(headers, 1, headers.len()));
        proof {
            assert(headers_view(headers@.subrange(1, headers@.len() as int)) =~= headers_view(
                headers@,
            ).drop_first());
        }
        r
    }
}

/// The client's preference read from the request headers: the selected
/// encoding of the first `TE` header's parsed value, if one resolves.
pub open spec fn spec_client_preference(headers: Seq<HeaderView>) -> Option<TransferEncoding> {
    match find_te_value(headers) {
        Some(v) => match spec_select(parse_te(v)) {
            Some(p) => Some(p.0),
            None => None,
        },
        None => None,
    }
}

/// The negotiated transfer encoding, as a priority chain:
/// 1. a protocol at or below HTTP/1.0 always gets identity;
/// 2. otherwise a client preference from the `TE` header wins;
/// 3. otherwise pending trailing headers force chunked;
/// 4. otherwise an unknown length, or a known length at or above
///    [`CHUNKS_THRESHOLD`], forces chunked;
/// 5. otherwise identity.
pub open spec fn spec_choose_transfer_encoding(
    headers: Seq<HeaderView>,
    version: HTTPVersion,
    entity_length: Option<usize>,
    has_additional_headers: bool,
) -> TransferEncoding {
    if version.spec_at_most_1_0() {
        TransferEncoding::Identity
    } else {
        match spec_client_preference(headers) {
            Some(te) => te,
            None => {
                if has_additional_headers {
                    TransferEncoding::Chunked
                } else {
                    match entity_length {
                        Some(l) => {
                            if l >= CHUNKS_THRESHOLD {
                                TransferEncoding::Chunked
                            } else {
                                TransferEncoding::Identity
                            }
                        },
                        None => TransferEncoding::Chunked,
                    }
                }
            },
        }
    }
}

/// Chooses the transfer encoding for a response, per the priority chain
/// of [`spec_choose_transfer_encoding`].
pub fn choose_transfer_encoding(
    request_headers: &[Header],
    http_version: &HTTPVersion,
    entity_length: &Option<usize>,
    has_additional_headers: bool,
) -> (r: TransferEncoding)
    ensures
        r == spec_choose_transfer_encoding(
            headers_view(request_headers@),
            *http_version,
            *entity_length,
            has_additional_headers,
        ),
{
    if http_version.at_most_1_0() {
        return TransferEncoding::Identity;
    }
    match find_te_value_exec(request_headers) {
        Some(value) => {
            let entries = parse_te_exec(value.as_slice());
            match select_entries(entries.as_slice()) {
                Some(p) => {
                    return p.0;
                },
                None => {},
            }
        },
        None => {},
    }
    if has_additional_headers {
        return TransferEncoding::Chunked;
    }
    match entity_length {
        Some(l) => {
            if *l >= CHUNKS_THRESHOLD {
                TransferEncoding::Chunked
            } else {
                TransferEncoding::Identity
            }
        },
        None => TransferEncoding::Chunked,
    }
}

/// At or below HTTP/1.0 the negotiation is identity, whatever the `TE`
/// header, the declared length or pending trailers say.
pub proof fn lemma_old_protocol_forces_identity(
    headers: Seq<HeaderView>,
    version: HTTPVersion,
    entity_length: Option<usize>,
    has_additional_headers: bool,
)
    requires
        version.spec_at_most_1_0(),
    ensures
        spec_choose_transfer_encoding(headers, version, entity_length, has_additional_headers)
            == TransferEncoding::Identity,
{
}

/// Past HTTP/1.0, with no `TE` header and no pending trailers, the
/// declared length alone decides: below the threshold identity, at or
/// above it or unknown chunked.
pub proof fn lemma_threshold_decides(
    headers: Seq<HeaderView>,
    version: HTTPVersion,
    entity_length: Option<usize>,
)
    requires
        !version.spec_at_most_1_0(),
        find_te_value(headers) is None,
    ensures
        spec_choose_transfer_encoding(headers, version, entity_length, false) == match entity_length {
            Some(l) => {
                if l < CHUNKS_THRESHOLD {
                    TransferEncoding::Identity
                } else {
                    TransferEncoding::Chunked
                }
            },
            None => TransferEncoding::Chunked,
        },
{
}

/// What the selection returns: entries with weight zero never win, and
/// the winner is a supported entry of maximal weight — whatever the order
/// of the list.  When nothing is selected, every supported entry had
/// weight zero.
pub proof fn lemma_select_max(entries: Seq<TeEntryView>)
    ensures
        match spec_select(entries) {
            Some(p) => {
                &&& p.1 > 0
                &&& exists|i: int|
                    0 <= i < entries.len() && TransferEncoding::spec_from_token(
                        #[trigger] entries[i].token,
                    ) == Some(p.0) && entries[i].millis == p.1
                &&& forall|i: int|
                    0 <= i < entries.len() && TransferEncoding::spec_from_token(
                        #[trigger] entries[i].token,
                    ) is Some ==> entries[i].millis <= p.1
            },
            None => forall|i: int|
                0 <= i < entries.len() && TransferEncoding::spec_from_token(
                    #[trigger] entries[i].token,
                ) is Some ==> entries[i].millis == 0,
        },
    decreases entries.len(),
{
    if entries.len() > 0 {
        let rest = entries.drop_first();
        lemma_select_max(rest);
        assert(forall|i: int| 1 <= i < entries.len() ==> #[trigger] entries[i] == rest[i - 1]);
        match spec_select(entries) {
            Some(p) => {
                match spec_select(rest) {
                    Some(q) => {
                        if TransferEncoding::spec_from_token(entries[0].token) is Some
                            && entries[0].millis > 0 && q.1 <= entries[0].millis {
                            assert(p == (TransferEncoding::spec_from_token(
                                entries[0].token,
                            )->Some_0, entries[0].millis));
                        } else {
                            assert(p == q);
                            let w = choose|i: int|
                                0 <= i < rest.len() && TransferEncoding::spec_from_token(
                                    #[trigger] rest[i].token,
                                ) == Some(q.0) && rest[i].millis == q.1;
                            assert(entries[w + 1] == rest[w]);
                        }
                    },
                    None => {
                        assert(p == (TransferEncoding::spec_from_token(
                            entries[0].token,
                        )->Some_0, entries[0].millis));
                    },
                }
            },
            None => {},
        }
    }
}

} // verus!
