//! The text-framed wire codec of the Gossip protocol.
//!
//! Gossip messages carry an opaque payload: a nonempty string that, where it
//! travels together with a timestamp, may not contain `]`. Serializing a
//! well-formed message and parsing the text yields the message back.

use vstd::prelude::*;

use crate::chord_protocol::ParseError;
use crate::text::{
    all_dec_digits, find_char, find_char_in, has_no_char, has_prefix,
    parse_dec_u128, push_char, seq_val, spec_parse_dec_u128, starts_with, str_eq, append_dec_u128,
    digits_of,
};
use crate::text::{
    lemma_digits_of_val, lemma_find_char_is, lemma_find_char_none, lemma_seq_val_nonneg,
};

verus! {

/// The data that the gossip layer disseminates: one payload and the
/// Unix-epoch-millisecond timestamp of the write that produced it.
#[derive(Debug)]
pub struct State {
    pub data: String,
    pub timestamp: u128,
}

/// The mathematical value of a [`State`].
pub struct StateView {
    pub data: Seq<char>,
    pub timestamp: u128,
}

impl View for State {
    type V = StateView;

    open spec fn view(&self) -> StateView {
        StateView { data: self.data@, timestamp: self.timestamp }
    }
}

impl State {
    /// A copy of the state with the same payload and timestamp.
    pub fn snapshot(&self) -> (r: State)
        ensures
            r@ == self@,
    {
        State { data: self.data.clone(), timestamp: self.timestamp }
    }
}

impl PartialEq for State {
    fn eq(&self, other: &State) -> (r: bool) {
        self.timestamp == other.timestamp && str_eq(self.data.as_str(), other.data.as_str())
    }
}

impl vstd::std_specs::cmp::PartialEqSpecImpl for State {
    open spec fn obeys_eq_spec() -> bool {
        true
    }

    open spec fn eq_spec(&self, other: &State) -> bool {
        self@ == other@
    }
}

impl Eq for State {}

/// A request of the Gossip protocol.
#[derive(Debug, PartialEq, Eq)]
pub enum GossipRequest {
    UpdateData(String),
    ShareData(Option<State>),
}

/// The mathematical value of a [`GossipRequest`].
pub enum GossipRequestView {
    UpdateData(Seq<char>),
    ShareData(Option<StateView>),
}

impl View for GossipRequest {
    type V = GossipRequestView;

    open spec fn view(&self) -> GossipRequestView {
        match self {
            GossipRequest::UpdateData(d) => GossipRequestView::UpdateData(d@),
            GossipRequest::ShareData(None) => GossipRequestView::ShareData(None),
            GossipRequest::ShareData(Some(st)) => GossipRequestView::ShareData(Some(st@)),
        }
    }
}

/// A response of the Gossip protocol.
#[derive(Debug, PartialEq, Eq)]
pub enum GossipResponse {
    Ignore,
    ResponseWithData(State),
}

/// The mathematical value of a [`GossipResponse`].
pub enum GossipResponseView {
    Ignore,
    ResponseWithData(StateView),
}

impl View for GossipResponse {
    type V = GossipResponseView;

    open spec fn view(&self) -> GossipResponseView {
        match self {
            GossipResponse::Ignore => GossipResponseView::Ignore,
            GossipResponse::ResponseWithData(st) => GossipResponseView::ResponseWithData(st@),
        }
    }
}

// ---------------------------------------------------------------------------
// Grammar
// ---------------------------------------------------------------------------

/// A payload that may travel next to a timestamp: nonempty, without `]`.
pub open spec fn wf_payload(s: Seq<char>) -> bool {
    s.len() > 0 && has_no_char(s, ']')
}

/// A state the codec can carry.
pub open spec fn wf_state(st: StateView) -> bool {
    wf_payload(st.data)
}

/// A gossip request the codec can carry.
pub open spec fn wf_gossip_request(m: GossipRequestView) -> bool {
    match m {
        GossipRequestView::UpdateData(d) => d.len() > 0,
        GossipRequestView::ShareData(None) => true,
        GossipRequestView::ShareData(Some(st)) => wf_state(st),
    }
}

/// A gossip response the codec can carry.
pub open spec fn wf_gossip_response(m: GossipResponseView) -> bool {
    match m {
        GossipResponseView::Ignore => true,
        GossipResponseView::ResponseWithData(st) => wf_state(st),
    }
}

/// Parses the tail of a `[payload][timestamp];` message: `s` is the whole
/// message and `p` the position where `[payload` starts. The payload runs to
/// the first `]`; the timestamp must be decimal and fit in 128 bits.
pub open spec fn spec_parse_payload_ts(s: Seq<char>, p: int) -> Option<StateView> {
    match find_char(s, ']') {
        Some(j) => if p < j && j + 2 < s.len() - 2 && s[j + 1] == '[' {
            let digits = s.subrange(j + 2, s.len() - 2);
            if all_dec_digits(digits) && seq_val(digits, 10) <= u128::MAX {
                Some(StateView { data: s.subrange(p, j), timestamp: seq_val(digits, 10) as u128 })
            } else {
                None
            }
        } else {
            None
        },
        None => None,
    }
}

/// Parses an `UPDATE_DATA=[payload];` request; the payload is everything
/// between the brackets and must be nonempty.
pub open spec fn spec_parse_update_data(s: Seq<char>) -> Option<GossipRequestView> {
    if starts_with(s, "UPDATE_DATA=["@) && s.len() >= 16 && s[s.len() - 2] == ']' && s.last()
        == ';' {
        Some(GossipRequestView::UpdateData(s.subrange(13, s.len() - 2)))
    } else {
        None
    }
}

/// Parses a `SHARE_DATA=NONE;` or `SHARE_DATA=[payload][timestamp];`
/// request.
pub open spec fn spec_parse_share_data(s: Seq<char>) -> Option<GossipRequestView> {
    if s == "SHARE_DATA=NONE;"@ {
        Some(GossipRequestView::ShareData(None))
    } else if starts_with(s, "SHARE_DATA=["@) && s.len() >= 18 && s[s.len() - 2] == ']' && s.last()
        == ';' {
        match spec_parse_payload_ts(s, 12) {
            Some(st) => Some(GossipRequestView::ShareData(Some(st))),
            None => None,
        }
    } else {
        None
    }
}

/// Parses any gossip request, trying each shape in turn.
pub open spec fn spec_parse_gossip_request(s: Seq<char>) -> Result<GossipRequestView, ParseError> {
    match spec_parse_update_data(s) {
        Some(m) => Ok(m),
        None => match spec_parse_share_data(s) {
            Some(m) => Ok(m),
            None => Err(ParseError::Protocol),
        },
    }
}

/// Parses a `RESPONSE=IGNORE;` or `RESPONSE=[payload][timestamp];` response.
pub open spec fn spec_parse_gossip_response(s: Seq<char>) -> Result<
    GossipResponseView,
    ParseError,
> {
    if s == "RESPONSE=IGNORE;"@ {
        Ok(GossipResponseView::Ignore)
    } else if starts_with(s, "RESPONSE=["@) && s.len() >= 16 && s[s.len() - 2] == ']' && s.last()
        == ';' {
        match spec_parse_payload_ts(s, 10) {
            Some(st) => Ok(GossipResponseView::ResponseWithData(st)),
            None => Err(ParseError::Protocol),
        }
    } else {
        Err(ParseError::Protocol)
    }
}

/// The wire text of a gossip request.
pub open spec fn spec_serialize_gossip_request(m: GossipRequestView) -> Seq<char> {
    match m {
        GossipRequestView::UpdateData(d) => "UPDATE_DATA=["@ + d + seq![']', ';'],
        GossipRequestView::ShareData(None) => "SHARE_DATA=NONE;"@,
        GossipRequestView::ShareData(Some(st)) => "SHARE_DATA=["@ + st.data + seq![']', '[']
            + digits_of(st.timestamp as nat, 10) + seq![']', ';'],
    }
}

/// The wire text of a gossip response.
pub open spec fn spec_serialize_gossip_response(m: GossipResponseView) -> Seq<char> {
    match m {
        GossipResponseView::Ignore => "RESPONSE=IGNORE;"@,
        GossipResponseView::ResponseWithData(st) => "RESPONSE=["@ + st.data + seq![']', '[']
            + digits_of(st.timestamp as nat, 10) + seq![']', ';'],
    }
}

/// The view of a request parse result.
pub open spec fn gossip_request_result_view(r: Result<GossipRequest, ParseError>) -> Result<
    GossipRequestView,
    ParseError,
> {
    match r {
        Ok(m) => Ok(m@),
        Err(e) => Err(e),
    }
}

/// The view of a response parse result.
pub open spec fn gossip_response_result_view(r: Result<GossipResponse, ParseError>) -> Result<
    GossipResponseView,
    ParseError,
> {
    match r {
        Ok(m) => Ok(m@),
        Err(e) => Err(e),
    }
}

// ---------------------------------------------------------------------------
// Executable codec
// ---------------------------------------------------------------------------

/// Parses the `[payload][timestamp];` tail of a message, with the payload
/// starting at `p`.
fn parse_payload_ts(s: &str, p: usize) -> (r: Option<State>)
    requires
        p < s@.len(),
    ensures
        match r {
            Some(st) => spec_parse_payload_ts(s@, p as int) == Some(st@),
            None => spec_parse_payload_ts(s@, p as int) is None,
        },
{
    let len = s.unicode_len();
    let j = match find_char_in(s, 0, ']') {
        Some(j) => j,
        None => {
            proof {
                lemma_find_char_none(s@, ']');
            }
            return None;
        }
    };
    proof {
        lemma_find_char_is(s@, ']', j as int);
    }
    if !(p < j && len >= 5 && j < len - 4 && s.get_char(j + 1) == '[') {
        return None;
    }
    let ts = match parse_dec_u128(s, j + 2, len - 2) {
        Some(v) => v,
        None => {
            proof {
                let digits = s@.subrange(j as int + 2, s@.len() - 2);
                if all_dec_digits(digits) && seq_val(digits, 10) <= u128::MAX {
                    lemma_seq_val_nonneg(digits, 10);
                    assert(spec_parse_dec_u128(digits) is Some);
                }
            }
            return None;
        }
    };
    proof {
        let digits = s@.subrange(j as int + 2, s@.len() - 2);
        lemma_seq_val_nonneg(digits, 10);
    }
    let payload = s.substring_char(p, j);
    proof {
        assert(payload@ =~= s@.subrange(p as int, j as int));
    }
    Some(State { data: String::from_str(payload), timestamp: ts })
}

impl GossipRequest {
    /// Parses a string slice into a `GossipRequest` according to the
    /// protocol.
    pub fn parse(request: &str) -> (r: Result<GossipRequest, ParseError>)
        ensures
            gossip_request_result_view(r) == spec_parse_gossip_request(request@),
    {
        if let Some(m) = Self::parse_update_data_request_protocol(request) {
            return Ok(m);
        }
        if let Some(m) = Self::parse_share_data_request_protocol(request) {
            return Ok(m);
        }
        Err(ParseError::Protocol)
    }

    fn parse_update_data_request_protocol(request: &str) -> (r: Option<GossipRequest>)
        ensures
            match r {
                Some(m) => spec_parse_update_data(request@) == Some(m@),
                None => spec_parse_update_data(request@) is None,
            },
    {
        let len = request.unicode_len();
        if !has_prefix(request, "UPDATE_DATA=[") {
            return None;
        }
        if len < 16 || request.get_char(len - 2) != ']' || request.get_char(len - 1) != ';' {
            return None;
        }
        let payload = request.substring_char(13, len - 2);
        proof {
            reveal_strlit("UPDATE_DATA=[");
        }
        Some(GossipRequest::UpdateData(String::from_str(payload)))
    }

    fn parse_share_data_request_protocol(request: &str) -> (r: Option<GossipRequest>)
        ensures
            match r {
                Some(m) => spec_parse_share_data(request@) == Some(m@),
                None => spec_parse_share_data(request@) is None,
            },
    {
        let len = request.unicode_len();
        if str_eq(request, "SHARE_DATA=NONE;") {
            return Some(GossipRequest::ShareData(None));
        }
        if !has_prefix(request, "SHARE_DATA=[") {
            return None;
        }
        if len < 18 || request.get_char(len - 2) != ']' || request.get_char(len - 1) != ';' {
            return None;
        }
        proof {
            reveal_strlit("SHARE_DATA=[");
        }
        match parse_payload_ts(request, 12) {
            Some(st) => Some(GossipRequest::ShareData(Some(st))),
            None => None,
        }
    }

    /// Converts the request into its text-based representation according to
    /// the protocol.
    pub fn to_protocol_text(&self) -> (r: String)
        ensures
            r@ == spec_serialize_gossip_request(self@),
    {
        let mut out = String::new();
        match self {
            GossipRequest::UpdateData(d) => {
                out.append("UPDATE_DATA=[");
                out.append(d.as_str());
                push_char(&mut out, ']');
                push_char(&mut out, ';');
                proof {
                    assert(out@ =~= spec_serialize_gossip_request(self@));
                }
            }
            GossipRequest::ShareData(None) => {
                out.append("SHARE_DATA=NONE;");
                proof {
                    assert(out@ =~= spec_serialize_gossip_request(self@));
                }
            }
            GossipRequest::ShareData(Some(st)) => {
                out.append("SHARE_DATA=[");
                out.append(st.data.as_str());
                push_char(&mut out, ']');
                push_char(&mut out, '[');
                append_dec_u128(&mut out, st.timestamp);
                push_char(&mut out, ']');
                push_char(&mut out, ';');
                proof {
                    assert(out@ =~= spec_serialize_gossip_request(self@));
                }
            }
        }
        out
    }
}

impl GossipResponse {
    /// Parses a string slice into a `GossipResponse` according to the
    /// protocol.
    pub fn parse(response: &str) -> (r: Result<GossipResponse, ParseError>)
        ensures
            gossip_response_result_view(r) == spec_parse_gossip_response(response@),
    {
        if let Some(m) = Self::parse_ignore_response_protocol(response) {
            return Ok(m);
        }
        if let Some(m) = Self::parse_response_with_data_protocol(response) {
            return Ok(m);
        }
        Err(ParseError::Protocol)
    }

    /// Parses a `RESPONSE=IGNORE;` response.
    pub fn parse_ignore_response_protocol(response: &str) -> (r: Option<GossipResponse>)
        ensures
            match r {
                Some(m) => response@ == "RESPONSE=IGNORE;"@ && m@ == GossipResponseView::Ignore,
                None => response@ != "RESPONSE=IGNORE;"@,
            },
    {
        if str_eq(response, "RESPONSE=IGNORE;") {
            Some(GossipResponse::Ignore)
        } else {
            None
        }
    }

    fn parse_response_with_data_protocol(response: &str) -> (r: Option<GossipResponse>)
        ensures
            response@ != "RESPONSE=IGNORE;"@ ==> match r {
                Some(m) => spec_parse_gossip_response(response@) == Ok::<
                    GossipResponseView,
                    ParseError,
                >(m@),
                None => spec_parse_gossip_response(response@) == Err::<
                    GossipResponseView,
                    ParseError,
                >(ParseError::Protocol),
            },
    {
        let len = response.unicode_len();
        if !has_prefix(response, "RESPONSE=[") {
            return None;
        }
        if len < 16 || response.get_char(len - 2) != ']' || response.get_char(len - 1) != ';' {
            return None;
        }
        proof {
            reveal_strlit("RESPONSE=[");
        }
        match parse_payload_ts(response, 10) {
            Some(st) => Some(GossipResponse::ResponseWithData(st)),
            None => None,
        }
    }

    /// Converts the response into its text-based representation according
    /// to the protocol.
    pub fn to_protocol_text(&self) -> (r: String)
        ensures
            r@ == spec_serialize_gossip_response(self@),
    {
        let mut out = String::new();
        match self {
            GossipResponse::Ignore => {
                out.append("RESPONSE=IGNORE;");
                proof {
                    assert(out@ =~= spec_serialize_gossip_response(self@));
                }
            }
            GossipResponse::ResponseWithData(st) => {
                out.append("RESPONSE=[");
                out.append(st.data.as_str());
                push_char(&mut out, ']');
                push_char(&mut out, '[');
                append_dec_u128(&mut out, st.timestamp);
                push_char(&mut out, ']');
                push_char(&mut out, ';');
                proof {
                    assert(out@ =~= spec_serialize_gossip_response(self@));
                }
            }
        }
        out
    }
}

// ---------------------------------------------------------------------------
// Round trip
// ---------------------------------------------------------------------------

/// A `[payload][timestamp]` tail placed after a `]`-free prefix parses back
/// to its payload and timestamp.
proof fn lemma_payload_ts_at(pre: Seq<char>, data: Seq<char>, ts: u128)
    requires
        has_no_char(pre, ']'),
        wf_payload(data),
    ensures
        ({
            let s = pre + data + seq![']', '['] + digits_of(ts as nat, 10) + seq![']', ';'];
            spec_parse_payload_ts(s, pre.len() as int) == Some(
                StateView { data: data, timestamp: ts },
            )
        }),
{
    let d = digits_of(ts as nat, 10);
    lemma_digits_of_val(ts as nat, 10);
    let s = pre + data + seq![']', '['] + d + seq![']', ';'];
    let j = pre.len() as int + data.len() as int;
    assert(s[j] == ']');
    assert forall|k: int| 0 <= k < j implies s[k] != ']' by {
        if k < pre.len() {
            assert(s[k] == pre[k]);
        } else {
            assert(s[k] == data[k - pre.len()]);
        }
    }
    lemma_find_char_is(s, ']', j);
    assert(s[j + 1] == '[');
    assert(s.len() == j + 4 + d.len());
    assert(s.subrange(j + 2, s.len() - 2) =~= d);
    assert(s.subrange(pre.len() as int, j) =~= data);
}

/// A string differing from `p` at an index inside `p` does not start with
/// `p`.
proof fn lemma_prefix_differs(s: Seq<char>, p: Seq<char>, j: int)
    requires
        0 <= j < p.len(),
        j < s.len(),
        s[j] != p[j],
    ensures
        !starts_with(s, p),
{
    if starts_with(s, p) {
        assert(s.take(p.len() as int)[j] == s[j]);
    }
}

/// Serializing a well-formed gossip request and parsing the text yields the
/// same request: the codec round trip.
#[verifier::rlimit(30)]
pub proof fn lemma_gossip_request_roundtrip(m: GossipRequestView)
    requires
        wf_gossip_request(m),
    ensures
        spec_parse_gossip_request(spec_serialize_gossip_request(m)) == Ok::<
            GossipRequestView,
            ParseError,
        >(m),
{
    reveal_strlit("UPDATE_DATA=[");
    reveal_strlit("SHARE_DATA=NONE;");
    reveal_strlit("SHARE_DATA=[");
    let s = spec_serialize_gossip_request(m);
    match m {
        GossipRequestView::UpdateData(d) => {
            assert(s =~= "UPDATE_DATA=["@ + d + seq![']', ';']);
            assert(s.take(13) =~= "UPDATE_DATA=["@);
            assert(s.len() >= 16);
            assert(s[s.len() - 2] == ']');
            assert(s.last() == ';');
            assert(s.subrange(13, s.len() - 2) =~= d);
            assert(spec_parse_update_data(s) == Some(m));
        }
        GossipRequestView::ShareData(None) => {
            assert(s == "SHARE_DATA=NONE;"@);
            assert(s[0] == 'S');
            lemma_prefix_differs(s, "UPDATE_DATA=["@, 0);
            assert(spec_parse_share_data(s) == Some(m));
        }
        GossipRequestView::ShareData(Some(st)) => {
            let d = digits_of(st.timestamp as nat, 10);
            lemma_digits_of_val(st.timestamp as nat, 10);
            assert(s =~= "SHARE_DATA=["@ + st.data + seq![']', '['] + d + seq![']', ';']);
            assert(s[0] == 'S');
            lemma_prefix_differs(s, "UPDATE_DATA=["@, 0);
            assert(s.len() >= 18);
            assert(s != "SHARE_DATA=NONE;"@) by {
                if s == "SHARE_DATA=NONE;"@ {
                    assert(s.len() == 16);
                }
            }
            assert(s.take(12) =~= "SHARE_DATA=["@);
            assert(s[s.len() - 2] == ']');
            assert(s.last() == ';');
            assert(has_no_char("SHARE_DATA=["@, ']')) by {
                assert forall|k: int| 0 <= k < "SHARE_DATA=["@.len() implies "SHARE_DATA=["@[k]
                    != ']' by {
                }
            }
            lemma_payload_ts_at("SHARE_DATA=["@, st.data, st.timestamp);
            assert(spec_parse_payload_ts(s, 12) == Some(st));
            assert(spec_parse_share_data(s) == Some(m));
        }
    }
}

/// Serializing a well-formed gossip response and parsing the text yields
/// the same response: the codec round trip.
pub proof fn lemma_gossip_response_roundtrip(m: GossipResponseView)
    requires
        wf_gossip_response(m),
    ensures
        spec_parse_gossip_response(spec_serialize_gossip_response(m)) == Ok::<
            GossipResponseView,
            ParseError,
        >(m),
{
    reveal_strlit("RESPONSE=IGNORE;");
    reveal_strlit("RESPONSE=[");
    let s = spec_serialize_gossip_response(m);
    match m {
        GossipResponseView::Ignore => {
            assert(s == "RESPONSE=IGNORE;"@);
        }
        GossipResponseView::ResponseWithData(st) => {
            let d = digits_of(st.timestamp as nat, 10);
            lemma_digits_of_val(st.timestamp as nat, 10);
            assert(s =~= "RESPONSE=["@ + st.data + seq![']', '['] + d + seq![']', ';']);
            assert(s[9] == '[');
            assert(s != "RESPONSE=IGNORE;"@) by {
                if s == "RESPONSE=IGNORE;"@ {
                    assert(s[9] == 'I');
                }
            }
            assert(s.take(10) =~= "RESPONSE=["@);
            assert(s.len() >= 16);
            assert(s[s.len() - 2] == ']');
            assert(s.last() == ';');
            assert(has_no_char("RESPONSE=["@, ']')) by {
                assert forall|k: int| 0 <= k < "RESPONSE=["@.len() implies "RESPONSE=["@[k]
                    != ']' by {
                }
            }
            lemma_payload_ts_at("RESPONSE=["@, st.data, st.timestamp);
            assert(spec_parse_payload_ts(s, 10) == Some(st));
        }
    }
}


} // verus!
