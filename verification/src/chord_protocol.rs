//! The text-framed wire codec of the Chord protocol.
//!
//! Every message is ASCII-framed and ends with `;`. A node on the wire is
//! written `[<32 lowercase hex digits>][<socket address>]`. Parsing returns
//! the message or a [`ParseError`]; serialization of a well-formed message
//! parses back to the same message.

use vstd::prelude::*;

use crate::addr::{
    all_addr_chars, check_all_addr_chars, is_addr_char, lemma_hex_digit_not_punct,
    lemma_sockaddr_roundtrip, parse_sockaddr, spec_fmt_sockaddr, spec_parse_sockaddr,
    append_sockaddr, SockAddr,
};
use crate::node::{
    append_hex_id, lemma_hex_id_roundtrip, parse_hex_id, spec_hex_decode_id, spec_hex_id, Node,
};
use crate::text::{
    all_hex_digits, check_all_hex_digits, find_char_in, has_no_char, has_prefix, is_hex_digit,
    push_char, split_at_commas, starts_with, str_eq,
};
use crate::text::{
    lemma_find_char_is, lemma_find_char_none, lemma_split_single, lemma_split_step,
};

verus! {

/// Why a message failed to parse: it matched no message shape, or it
/// matched one but its socket address field did not parse.
#[derive(Clone, Copy, PartialEq, Eq, Structural, Debug)]
pub enum ParseError {
    Protocol,
    InvalidSocketAddress,
}

impl ParseError {
    /// The protocol's description of this error when a request failed to
    /// parse.
    pub fn request_text(&self) -> (r: String)
        ensures
            *self is Protocol ==> r@ == "invalid request (protocol error)"@,
            *self is InvalidSocketAddress ==> r@ == "invalid request (invalid socket address)"@,
    {
        match self {
            ParseError::Protocol => String::from_str("invalid request (protocol error)"),
            ParseError::InvalidSocketAddress => String::from_str(
                "invalid request (invalid socket address)",
            ),
        }
    }

    /// The protocol's description of this error when a response failed to
    /// parse.
    pub fn response_text(&self) -> (r: String)
        ensures
            *self is Protocol ==> r@ == "invalid response (protocol error)"@,
            *self is InvalidSocketAddress ==> r@ == "invalid response (invalid socket address)"@,
    {
        match self {
            ParseError::Protocol => String::from_str("invalid response (protocol error)"),
            ParseError::InvalidSocketAddress => String::from_str(
                "invalid response (invalid socket address)",
            ),
        }
    }
}

/// A request of the Chord protocol.
#[derive(Clone, Copy, PartialEq, Eq, Structural, Debug)]
pub enum ChordRequest {
    FindSuccessorOfNode(Node),
    GetSuccessorList,
    GetPredecessor,
    NotificationBy(Node),
    CheckNode,
}

/// A response of the Chord protocol.
#[derive(Debug)]
pub enum ChordResponse {
    Successor(Node),
    SuccessorList(Vec<Node>),
    Predecessor(Option<Node>),
    Active,
    Error(String),
}

/// The mathematical value of a [`ChordResponse`]: collections and strings
/// become sequences.
pub enum ChordResponseView {
    Successor(Node),
    SuccessorList(Seq<Node>),
    Predecessor(Option<Node>),
    Active,
    Error(Seq<char>),
}

impl View for ChordResponse {
    type V = ChordResponseView;

    open spec fn view(&self) -> ChordResponseView {
        match self {
            ChordResponse::Successor(n) => ChordResponseView::Successor(*n),
            ChordResponse::SuccessorList(l) => ChordResponseView::SuccessorList(l@),
            ChordResponse::Predecessor(p) => ChordResponseView::Predecessor(*p),
            ChordResponse::Active => ChordResponseView::Active,
            ChordResponse::Error(e) => ChordResponseView::Error(e@),
        }
    }
}

impl PartialEq for ChordResponse {
    fn eq(&self, other: &ChordResponse) -> (r: bool) {
        match (self, other) {
            (ChordResponse::Successor(a), ChordResponse::Successor(b)) => *a == *b,
            (ChordResponse::SuccessorList(a), ChordResponse::SuccessorList(b)) => {
                if a.len() != b.len() {
                    proof {
                        if self@ == other@ {
                            assert(a@ == b@);
                        }
                    }
                    return false;
                }
                let mut i: usize = 0;
                while i < a.len()
                    invariant
                        i <= a@.len(),
                        a@.len() == b@.len(),
                        self@ == ChordResponseView::SuccessorList(a@),
                        other@ == ChordResponseView::SuccessorList(b@),
                        forall|j: int| 0 <= j < i ==> a@[j] == b@[j],
                    decreases a@.len() - i,
                {
                    if !(a[i] == b[i]) {
                        proof {
                            if self@ == other@ {
                                assert(a@ == b@);
                                assert(a@[i as int] == b@[i as int]);
                            }
                        }
                        return false;
                    }
                    i += 1;
                }
                proof {
                    assert(a@ =~= b@);
                }
                true
            }
            (ChordResponse::Predecessor(a), ChordResponse::Predecessor(b)) => match (a, b) {
                (None, None) => true,
                (Some(x), Some(y)) => *x == *y,
                _ => false,
            },
            (ChordResponse::Active, ChordResponse::Active) => true,
            (ChordResponse::Error(a), ChordResponse::Error(b)) => str_eq(a.as_str(), b.as_str()),
            _ => false,
        }
    }
}

impl vstd::std_specs::cmp::PartialEqSpecImpl for ChordResponse {
    open spec fn obeys_eq_spec() -> bool {
        true
    }

    open spec fn eq_spec(&self, other: &ChordResponse) -> bool {
        self@ == other@
    }
}

impl Eq for ChordResponse {}

// ---------------------------------------------------------------------------
// The node field `[<hex32>][<sockaddr>]`
// ---------------------------------------------------------------------------

/// The wire text of a node: its identifier and address, each in brackets.
pub open spec fn spec_fmt_node_field(n: Node) -> Seq<char> {
    seq!['['] + spec_hex_id(n.id) + seq![']'] + seq!['['] + spec_fmt_sockaddr(n.public_addr)
        + seq![']']
}

/// Parses a node field. `None` means the text has not the field's shape;
/// an inner error means the shape fits but the address does not parse.
pub open spec fn spec_parse_node_field(s: Seq<char>) -> Option<Result<Node, ParseError>> {
    if s.len() >= 37 && s[0] == '[' && all_hex_digits(s.subrange(1, 33)) && s[33] == ']' && s[34]
        == '[' && s.last() == ']' && all_addr_chars(s.subrange(35, s.len() - 1)) {
        match spec_parse_sockaddr(s.subrange(35, s.len() - 1)) {
            Some(a) => Some(
                Ok(Node { id: spec_hex_decode_id(s.subrange(1, 33)), public_addr: a }),
            ),
            None => Some(Err(ParseError::InvalidSocketAddress)),
        }
    } else {
        None
    }
}

/// Parses a node field from a whole string slice.
pub fn parse_node_field(s: &str) -> (r: Option<Result<Node, ParseError>>)
    ensures
        r == spec_parse_node_field(s@),
{
    let len = s.unicode_len();
    if len < 37 {
        return None;
    }
    if s.get_char(0) != '[' {
        return None;
    }
    if !check_all_hex_digits(s, 1, 33) {
        return None;
    }
    if s.get_char(33) != ']' || s.get_char(34) != '[' {
        return None;
    }
    if s.get_char(len - 1) != ']' {
        return None;
    }
    if !check_all_addr_chars(s, 35, len - 1) {
        return None;
    }
    let id_str = s.substring_char(1, 33);
    let id = match parse_hex_id(id_str) {
        Some(v) => v,
        None => {
            proof {
                assert(false);
            }
            return None;
        }
    };
    let addr_str = s.substring_char(35, len - 1);
    match parse_sockaddr(addr_str) {
        Some(a) => Some(Ok(Node::create_from(id, a))),
        None => Some(Err(ParseError::InvalidSocketAddress)),
    }
}

/// Appends the wire text of a node.
pub fn append_node_field(out: &mut String, n: &Node)
    ensures
        final(out)@ == old(out)@ + spec_fmt_node_field(*n),
{
    let ghost base = out@;
    push_char(out, '[');
    append_hex_id(out, n.id);
    push_char(out, ']');
    push_char(out, '[');
    append_sockaddr(out, &n.public_addr);
    push_char(out, ']');
    proof {
        assert(out@ =~= base + spec_fmt_node_field(*n));
    }
}

/// A formatted node field parses back to the node; it is at least 37
/// characters, bracketed, and free of commas and semicolons.
pub proof fn lemma_node_field_roundtrip(n: Node)
    ensures
        spec_parse_node_field(spec_fmt_node_field(n)) == Some(Ok::<Node, ParseError>(n)),
        spec_fmt_node_field(n).len() >= 37,
        has_no_char(spec_fmt_node_field(n), ','),
        has_no_char(spec_fmt_node_field(n), ';'),
        spec_fmt_node_field(n)[0] == '[',
{
    let h = spec_hex_id(n.id);
    let a = spec_fmt_sockaddr(n.public_addr);
    let s = spec_fmt_node_field(n);
    lemma_hex_id_roundtrip(n.id);
    lemma_sockaddr_roundtrip(n.public_addr);
    assert(s =~= seq!['['] + h + seq![']'] + seq!['['] + a + seq![']']);
    assert(s.len() == 36 + a.len());
    assert(s[0] == '[');
    assert(s[33] == ']');
    assert(s[34] == '[');
    assert(s.last() == ']');
    assert(s.subrange(1, 33) =~= h);
    assert(s.subrange(35, s.len() - 1) =~= a);
    assert(spec_hex_decode_id(h) == n.id);
    assert(spec_parse_node_field(s) == Some(Ok::<Node, ParseError>(n)));
    assert forall|j: int| 0 <= j < s.len() implies s[j] != ',' && s[j] != ';' by {
        if 1 <= j < 33 {
            assert(s[j] == h[j - 1]);
            lemma_hex_digit_not_punct(h[j - 1]);
        } else if 35 <= j < s.len() - 1 {
            assert(s[j] == a[j - 35]);
            assert(is_addr_char(a[j - 35]));
            if is_hex_digit(a[j - 35]) {
                lemma_hex_digit_not_punct(a[j - 35]);
            }
        }
    }
}

// ---------------------------------------------------------------------------
// Entry lists: node fields joined with commas
// ---------------------------------------------------------------------------

/// Node fields joined with commas.
pub open spec fn spec_fmt_node_fields(l: Seq<Node>) -> Seq<char>
    decreases l.len(),
{
    if l.len() == 0 {
        Seq::empty()
    } else if l.len() == 1 {
        spec_fmt_node_field(l[0])
    } else {
        spec_fmt_node_field(l[0]) + seq![','] + spec_fmt_node_fields(l.drop_first())
    }
}

/// The formatted field of each node, as a sequence of texts.
pub open spec fn spec_node_fields_seq(l: Seq<Node>) -> Seq<Seq<char>>
    decreases l.len(),
{
    if l.len() == 0 {
        Seq::empty()
    } else {
        seq![spec_fmt_node_field(l[0])] + spec_node_fields_seq(l.drop_first())
    }
}

/// Parses a sequence of comma-split pieces as node fields. `None` means some
/// piece has not the field's shape.
pub open spec fn spec_parse_entries(ps: Seq<Seq<char>>) -> Option<Result<Seq<Node>, ParseError>>
    decreases ps.len(),
{
    if ps.len() == 0 {
        Some(Ok(Seq::empty()))
    } else {
        match spec_parse_node_field(ps[0]) {
            None => None,
            Some(Err(e)) => Some(Err(e)),
            Some(Ok(n)) => match spec_parse_entries(ps.drop_first()) {
                None => None,
                Some(Err(e)) => Some(Err(e)),
                Some(Ok(l)) => Some(Ok(seq![n] + l)),
            },
        }
    }
}

/// Joined fields split back into one piece per node, and those pieces parse
/// back to the nodes.
pub proof fn lemma_node_fields_roundtrip(l: Seq<Node>)
    requires
        l.len() >= 1,
    ensures
        split_at_commas(spec_fmt_node_fields(l)) =~~= spec_node_fields_seq(l),
        spec_parse_entries(spec_node_fields_seq(l)) == Some(Ok::<Seq<Node>, ParseError>(l)),
        spec_fmt_node_fields(l).len() >= 37 * l.len() + l.len() - 1,
        has_no_char(spec_fmt_node_fields(l), ';'),
    decreases l.len(),
{
    let s = spec_fmt_node_fields(l);
    let f = spec_fmt_node_field(l[0]);
    lemma_node_field_roundtrip(l[0]);
    if l.len() == 1 {
        assert(s =~= f);
        lemma_split_single(s);
        assert(spec_node_fields_seq(l) =~~= seq![f]);
        assert(seq![f].drop_first() =~~= Seq::<Seq<char>>::empty());
        assert(spec_parse_entries(Seq::<Seq<char>>::empty()) == Some(
            Ok::<Seq<Node>, ParseError>(Seq::empty()),
        ));
        assert(seq![l[0]] + Seq::<Node>::empty() =~= l);
    } else {
        let rest = l.drop_first();
        lemma_node_fields_roundtrip(rest);
        let rs = spec_fmt_node_fields(rest);
        assert(s =~= f + seq![','] + rs);
        lemma_split_step(f, rs);
        let ps = spec_node_fields_seq(l);
        assert(ps =~~= seq![f] + spec_node_fields_seq(rest));
        assert(ps[0] == f);
        assert(ps.drop_first() =~~= spec_node_fields_seq(rest));
        assert(spec_parse_entries(ps) == Some(Ok::<Seq<Node>, ParseError>(seq![l[0]] + rest)));
        assert(seq![l[0]] + rest =~= l);
        assert forall|j: int| 0 <= j < s.len() implies s[j] != ';' by {
            if j < f.len() {
                assert(s[j] == f[j]);
            } else if j > f.len() {
                assert(s[j] == rs[j - f.len() - 1]);
            }
        }
    }
}

/// Appending a node to a joined field text adds a comma and its field.
proof fn lemma_node_fields_snoc(l: Seq<Node>, n: Node)
    ensures
        l.len() == 0 ==> spec_fmt_node_fields(l.push(n)) == spec_fmt_node_field(n),
        l.len() > 0 ==> spec_fmt_node_fields(l.push(n)) == spec_fmt_node_fields(l) + seq![',']
            + spec_fmt_node_field(n),
    decreases l.len(),
{
    let p = l.push(n);
    if l.len() == 0 {
        assert(p.len() == 1);
        assert(p[0] == n);
    } else if l.len() == 1 {
        assert(p.len() == 2);
        assert(p[0] == l[0]);
        assert(p.drop_first() =~= seq![n]);
        assert(spec_fmt_node_fields(seq![n]) == spec_fmt_node_field(n));
        assert(spec_fmt_node_fields(l) == spec_fmt_node_field(l[0]));
        assert(spec_fmt_node_fields(p) =~= spec_fmt_node_fields(l) + seq![',']
            + spec_fmt_node_field(n));
    } else {
        assert(p.drop_first() =~= l.drop_first().push(n));
        lemma_node_fields_snoc(l.drop_first(), n);
        assert(p[0] == l[0]);
        assert(spec_fmt_node_fields(p) =~= spec_fmt_node_fields(l) + seq![',']
            + spec_fmt_node_field(n));
    }
}

/// Parses comma-separated node fields from a whole string slice.
fn parse_entries_str(s: &str) -> (r: Option<Result<Vec<Node>, ParseError>>)
    ensures
        match r {
            None => spec_parse_entries(split_at_commas(s@)) is None,
            Some(Err(e)) => spec_parse_entries(split_at_commas(s@)) == Some(
                Err::<Seq<Node>, ParseError>(e),
            ),
            Some(Ok(v)) => spec_parse_entries(split_at_commas(s@)) == Some(
                Ok::<Seq<Node>, ParseError>(v@),
            ),
        },
    decreases s@.len(),
{
    let len = s.unicode_len();
    match find_char_in(s, 0, ',') {
        None => {
            proof {
                lemma_find_char_none(s@, ',');
                assert(split_at_commas(s@) =~~= seq![s@]);
                assert(split_at_commas(s@).drop_first() =~~= Seq::<Seq<char>>::empty());
            }
            match parse_node_field(s) {
                None => {
                    proof {
                        assert(split_at_commas(s@)[0] == s@);
                        assert(spec_parse_entries(split_at_commas(s@)) is None);
                    }
                    None
                }
                Some(Err(e)) => Some(Err(e)),
                Some(Ok(n)) => {
                    let mut v: Vec<Node> = Vec::new();
                    v.push(n);
                    proof {
                        assert(v@ =~= seq![n] + Seq::<Node>::empty());
                    }
                    Some(Ok(v))
                }
            }
        }
        Some(i) => {
            proof {
                lemma_find_char_is(s@, ',', i as int);
            }
            let head = s.substring_char(0, i);
            let rest = s.substring_char(i + 1, len);
            proof {
                assert(head@ =~= s@.take(i as int));
                assert(rest@ =~= s@.skip(i as int + 1));
                assert(split_at_commas(s@)[0] == s@.take(i as int));
                assert(split_at_commas(s@).drop_first() =~~= split_at_commas(
                    s@.skip(i as int + 1),
                ));
            }
            match parse_node_field(head) {
                None => {
                    proof {
                        assert(spec_parse_entries(split_at_commas(s@)) is None);
                    }
                    None
                }
                Some(Err(e)) => Some(Err(e)),
                Some(Ok(n)) => match parse_entries_str(rest) {
                    None => {
                        proof {
                            assert(spec_parse_entries(split_at_commas(s@).drop_first()) is None);
                            assert(spec_parse_entries(split_at_commas(s@)) is None);
                        }
                        None
                    }
                    Some(Err(e)) => Some(Err(e)),
                    Some(Ok(mut v)) => {
                        let ghost tail = v@;
                        v.insert(0, n);
                        proof {
                            assert(v@ =~= seq![n] + tail);
                        }
                        Some(Ok(v))
                    }
                },
            }
        }
    }
}

// ---------------------------------------------------------------------------
// Responses: parsing
// ---------------------------------------------------------------------------

/// Parses a `SUCCESSOR=[id][addr];` response; `Ok(None)` means the text has
/// not this shape.
pub open spec fn spec_parse_successor_response(s: Seq<char>) -> Result<
    Option<ChordResponseView>,
    ParseError,
> {
    if starts_with(s, "SUCCESSOR="@) && s.len() > 11 && s.last() == ';' {
        match spec_parse_node_field(s.subrange(10, s.len() - 1)) {
            Some(Ok(n)) => Ok(Some(ChordResponseView::Successor(n))),
            Some(Err(e)) => Err(e),
            None => Ok(None),
        }
    } else {
        Ok(None)
    }
}

/// Parses a `SUCCESSOR_LIST={...};` response with exactly five entries.
pub open spec fn spec_parse_successor_list_response(s: Seq<char>) -> Result<
    Option<ChordResponseView>,
    ParseError,
> {
    if starts_with(s, "SUCCESSOR_LIST={"@) && s.len() >= 18 && s[s.len() - 2] == '}' && s.last()
        == ';' {
        match spec_parse_entries(split_at_commas(s.subrange(16, s.len() - 2))) {
            Some(Ok(l)) => if l.len() == 5 {
                Ok(Some(ChordResponseView::SuccessorList(l)))
            } else {
                Ok(None)
            },
            Some(Err(e)) => Err(e),
            None => Ok(None),
        }
    } else {
        Ok(None)
    }
}

/// Parses a `PREDECESSOR=NONE;` or `PREDECESSOR=[id][addr];` response.
pub open spec fn spec_parse_predecessor_response(s: Seq<char>) -> Result<
    Option<ChordResponseView>,
    ParseError,
> {
    if s == "PREDECESSOR=NONE;"@ {
        Ok(Some(ChordResponseView::Predecessor(None)))
    } else if starts_with(s, "PREDECESSOR="@) && s.len() > 13 && s.last() == ';' {
        match spec_parse_node_field(s.subrange(12, s.len() - 1)) {
            Some(Ok(n)) => Ok(Some(ChordResponseView::Predecessor(Some(n)))),
            Some(Err(e)) => Err(e),
            None => Ok(None),
        }
    } else {
        Ok(None)
    }
}

/// Parses an `ACTIVE;` response.
pub open spec fn spec_parse_active_response(s: Seq<char>) -> Option<ChordResponseView> {
    if s == "ACTIVE;"@ {
        Some(ChordResponseView::Active)
    } else {
        None
    }
}

/// Parses an `ERROR=[message];` response; the message is everything between
/// the brackets and must be nonempty.
pub open spec fn spec_parse_error_response(s: Seq<char>) -> Option<ChordResponseView> {
    if starts_with(s, "ERROR=["@) && s.len() >= 10 && s[s.len() - 2] == ']' && s.last() == ';' {
        Some(ChordResponseView::Error(s.subrange(7, s.len() - 2)))
    } else {
        None
    }
}

/// Parses any Chord response, trying each shape in turn.
pub open spec fn spec_parse_response(s: Seq<char>) -> Result<ChordResponseView, ParseError> {
    match spec_parse_successor_response(s) {
        Err(e) => Err(e),
        Ok(Some(m)) => Ok(m),
        Ok(None) => match spec_parse_successor_list_response(s) {
            Err(e) => Err(e),
            Ok(Some(m)) => Ok(m),
            Ok(None) => match spec_parse_predecessor_response(s) {
                Err(e) => Err(e),
                Ok(Some(m)) => Ok(m),
                Ok(None) => match spec_parse_active_response(s) {
                    Some(m) => Ok(m),
                    None => match spec_parse_error_response(s) {
                        Some(m) => Ok(m),
                        None => Err(ParseError::Protocol),
                    },
                },
            },
        },
    }
}

/// The view of a parse result.
pub open spec fn resp_result_view(r: Result<ChordResponse, ParseError>) -> Result<
    ChordResponseView,
    ParseError,
> {
    match r {
        Ok(m) => Ok(m@),
        Err(e) => Err(e),
    }
}

/// The view of a sub-parser result.
pub open spec fn resp_opt_view(r: Result<Option<ChordResponse>, ParseError>) -> Result<
    Option<ChordResponseView>,
    ParseError,
> {
    match r {
        Ok(Some(m)) => Ok(Some(m@)),
        Ok(None) => Ok(None),
        Err(e) => Err(e),
    }
}

// ---------------------------------------------------------------------------
// Responses: serialization
// ---------------------------------------------------------------------------

/// A response that the codec can carry: a successor list has exactly five
/// entries and an error message is nonempty.
pub open spec fn wf_chord_response(m: ChordResponseView) -> bool {
    match m {
        ChordResponseView::SuccessorList(l) => l.len() == 5,
        ChordResponseView::Error(msg) => msg.len() > 0,
        _ => true,
    }
}

/// The wire text of a response.
pub open spec fn spec_serialize_response(m: ChordResponseView) -> Seq<char> {
    match m {
        ChordResponseView::Successor(n) => "SUCCESSOR="@ + spec_fmt_node_field(n) + seq![';'],
        ChordResponseView::SuccessorList(l) => "SUCCESSOR_LIST={"@ + spec_fmt_node_fields(l)
            + seq!['}', ';'],
        ChordResponseView::Predecessor(None) => "PREDECESSOR=NONE;"@,
        ChordResponseView::Predecessor(Some(n)) => "PREDECESSOR="@ + spec_fmt_node_field(n)
            + seq![';'],
        ChordResponseView::Active => "ACTIVE;"@,
        ChordResponseView::Error(msg) => "ERROR=["@ + msg + seq![']', ';'],
    }
}

impl ChordResponse {
    /// Parses a string slice into a `ChordResponse` according to the
    /// protocol.
    pub fn parse(response: &str) -> (r: Result<ChordResponse, ParseError>)
        ensures
            resp_result_view(r) == spec_parse_response(response@),
    {
        match Self::parse_successor_response_protocol(response) {
            Err(e) => {
                return Err(e);
            }
            Ok(Some(m)) => {
                return Ok(m);
            }
            Ok(None) => {}
        }
        match Self::parse_successor_list_response_protocol(response) {
            Err(e) => {
                return Err(e);
            }
            Ok(Some(m)) => {
                return Ok(m);
            }
            Ok(None) => {}
        }
        match Self::parse_predecessor_response_protocol(response) {
            Err(e) => {
                return Err(e);
            }
            Ok(Some(m)) => {
                return Ok(m);
            }
            Ok(None) => {}
        }
        if let Some(m) = Self::parse_active_response_protocol(response) {
            return Ok(m);
        }
        if let Some(m) = Self::parse_error_response_protocol(response) {
            return Ok(m);
        }
        Err(ParseError::Protocol)
    }

    fn parse_successor_response_protocol(response: &str) -> (r: Result<
        Option<ChordResponse>,
        ParseError,
    >)
        ensures
            resp_opt_view(r) == spec_parse_successor_response(response@),
    {
        let len = response.unicode_len();
        if !has_prefix(response, "SUCCESSOR=") {
            return Ok(None);
        }
        if len <= 11 || response.get_char(len - 1) != ';' {
            return Ok(None);
        }
        let field = response.substring_char(10, len - 1);
        proof {
            reveal_strlit("SUCCESSOR=");
        }
        match parse_node_field(field) {
            Some(Ok(n)) => Ok(Some(ChordResponse::Successor(n))),
            Some(Err(e)) => Err(e),
            None => Ok(None),
        }
    }

    fn parse_successor_list_response_protocol(response: &str) -> (r: Result<
        Option<ChordResponse>,
        ParseError,
    >)
        ensures
            resp_opt_view(r) == spec_parse_successor_list_response(response@),
    {
        let len = response.unicode_len();
        if !has_prefix(response, "SUCCESSOR_LIST={") {
            return Ok(None);
        }
        if len < 18 || response.get_char(len - 2) != '}' || response.get_char(len - 1) != ';' {
            return Ok(None);
        }
        let inner = response.substring_char(16, len - 2);
        proof {
            reveal_strlit("SUCCESSOR_LIST={");
        }
        match parse_entries_str(inner) {
            Some(Ok(v)) => if v.len() == 5 {
                Ok(Some(ChordResponse::SuccessorList(v)))
            } else {
                Ok(None)
            },
            Some(Err(e)) => Err(e),
            None => Ok(None),
        }
    }

    fn parse_predecessor_response_protocol(response: &str) -> (r: Result<
        Option<ChordResponse>,
        ParseError,
    >)
        ensures
            resp_opt_view(r) == spec_parse_predecessor_response(response@),
    {
        let len = response.unicode_len();
        if str_eq(response, "PREDECESSOR=NONE;") {
            return Ok(Some(ChordResponse::Predecessor(None)));
        }
        if !has_prefix(response, "PREDECESSOR=") {
            return Ok(None);
        }
        if len <= 13 || response.get_char(len - 1) != ';' {
            return Ok(None);
        }
        let field = response.substring_char(12, len - 1);
        proof {
            reveal_strlit("PREDECESSOR=");
        }
        match parse_node_field(field) {
            Some(Ok(n)) => Ok(Some(ChordResponse::Predecessor(Some(n)))),
            Some(Err(e)) => Err(e),
            None => Ok(None),
        }
    }

    fn parse_active_response_protocol(response: &str) -> (r: Option<ChordResponse>)
        ensures
            match r {
                Some(m) => spec_parse_active_response(response@) == Some(m@),
                None => spec_parse_active_response(response@) is None,
            },
    {
        if str_eq(response, "ACTIVE;") {
            Some(ChordResponse::Active)
        } else {
            None
        }
    }

    fn parse_error_response_protocol(response: &str) -> (r: Option<ChordResponse>)
        ensures
            match r {
                Some(m) => spec_parse_error_response(response@) == Some(m@),
                None => spec_parse_error_response(response@) is None,
            },
    {
        let len = response.unicode_len();
        if !has_prefix(response, "ERROR=[") {
            return None;
        }
        if len < 10 || response.get_char(len - 2) != ']' || response.get_char(len - 1) != ';' {
            return None;
        }
        let msg = response.substring_char(7, len - 2);
        proof {
            reveal_strlit("ERROR=[");
        }
        Some(ChordResponse::Error(String::from_str(msg)))
    }

    /// Converts the response into its text-based representation according
    /// to the protocol.
    pub fn to_protocol_text(&self) -> (r: String)
        ensures
            r@ == spec_serialize_response(self@),
    {
        let mut out = String::new();
        match self {
            ChordResponse::Successor(n) => {
                out.append("SUCCESSOR=");
                append_node_field(&mut out, n);
                push_char(&mut out, ';');
                proof {
                    assert(out@ =~= spec_serialize_response(self@));
                }
            }
            ChordResponse::SuccessorList(l) => {
                out.append("SUCCESSOR_LIST={");
                let ghost base = out@;
                let mut i: usize = 0;
                while i < l.len()
                    invariant
                        i <= l@.len(),
                        out@ == base + spec_fmt_node_fields(l@.take(i as int)),
                    decreases l@.len() - i,
                {
                    if i > 0 {
                        push_char(&mut out, ',');
                    }
                    append_node_field(&mut out, &l[i]);
                    proof {
                        assert(l@.take(i as int + 1) =~= l@.take(i as int).push(l@[i as int]));
                        lemma_node_fields_snoc(l@.take(i as int), l@[i as int]);
                        assert(out@ =~= base + spec_fmt_node_fields(l@.take(i as int + 1)));
                    }
                    i += 1;
                }
                push_char(&mut out, '}');
                push_char(&mut out, ';');
                proof {
                    assert(l@.take(l@.len() as int) =~= l@);
                    assert(out@ =~= spec_serialize_response(self@));
                }
            }
            ChordResponse::Predecessor(p) => match p {
                None => {
                    out.append("PREDECESSOR=NONE;");
                    proof {
                        assert(out@ =~= spec_serialize_response(self@));
                    }
                }
                Some(n) => {
                    out.append("PREDECESSOR=");
                    append_node_field(&mut out, n);
                    push_char(&mut out, ';');
                    proof {
                        assert(out@ =~= spec_serialize_response(self@));
                    }
                }
            },
            ChordResponse::Active => {
                out.append("ACTIVE;");
                proof {
                    assert(out@ =~= spec_serialize_response(self@));
                }
            }
            ChordResponse::Error(msg) => {
                out.append("ERROR=[");
                out.append(msg.as_str());
                push_char(&mut out, ']');
                push_char(&mut out, ';');
                proof {
                    assert(out@ =~= spec_serialize_response(self@));
                }
            }
        }
        out
    }
}


// ---------------------------------------------------------------------------
// Responses: round trip
// ---------------------------------------------------------------------------

/// A string differing from `p` at an index inside `p` does not start with
/// `p`.
proof fn lemma_prefix_differs(s: Seq<char>, p: Seq<char>, j: int)
    requires
        0 <= j < p.len(),
        j < s.len(),
        s[j] != p[j],
    ensures
        !starts_with(s, p),
{
    if starts_with(s, p) {
        assert(s.take(p.len() as int)[j] == s[j]);
    }
}

/// Serializing a well-formed response and parsing the text yields the same
/// response: the codec round trip.
#[verifier::rlimit(60)]
pub proof fn lemma_chord_response_roundtrip(m: ChordResponseView)
    requires
        wf_chord_response(m),
    ensures
        spec_parse_response(spec_serialize_response(m)) == Ok::<ChordResponseView, ParseError>(m),
{
    reveal_strlit("SUCCESSOR=");
    reveal_strlit("SUCCESSOR_LIST={");
    reveal_strlit("PREDECESSOR=NONE;");
    reveal_strlit("PREDECESSOR=");
    reveal_strlit("ACTIVE;");
    reveal_strlit("ERROR=[");
    let s = spec_serialize_response(m);
    match m {
        ChordResponseView::Successor(n) => {
            let f = spec_fmt_node_field(n);
            lemma_node_field_roundtrip(n);
            assert(s =~= "SUCCESSOR="@ + f + seq![';']);
            assert(s.take(10) =~= "SUCCESSOR="@);
            assert(s.len() > 11);
            assert(s.last() == ';');
            assert(s.subrange(10, s.len() - 1) =~= f);
            assert(spec_parse_successor_response(s) == Ok::<
                Option<ChordResponseView>,
                ParseError,
            >(Some(m)));
        }
        ChordResponseView::SuccessorList(l) => {
            let f = spec_fmt_node_fields(l);
            lemma_node_fields_roundtrip(l);
            assert(s =~= "SUCCESSOR_LIST={"@ + f + seq!['}', ';']);
            assert(s[9] == '_');
            lemma_prefix_differs(s, "SUCCESSOR="@, 9);
            assert(s.take(16) =~= "SUCCESSOR_LIST={"@);
            assert(s.len() >= 18);
            assert(s[s.len() - 2] == '}');
            assert(s.last() == ';');
            assert(s.subrange(16, s.len() - 2) =~= f);
            assert(spec_parse_entries(split_at_commas(f)) == Some(Ok::<Seq<Node>, ParseError>(
                l,
            )));
            assert(spec_parse_successor_list_response(s) == Ok::<
                Option<ChordResponseView>,
                ParseError,
            >(Some(m)));
        }
        ChordResponseView::Predecessor(None) => {
            assert(s == "PREDECESSOR=NONE;"@);
            assert(s[0] == 'P');
            lemma_prefix_differs(s, "SUCCESSOR="@, 0);
            lemma_prefix_differs(s, "SUCCESSOR_LIST={"@, 0);
            assert(spec_parse_predecessor_response(s) == Ok::<
                Option<ChordResponseView>,
                ParseError,
            >(Some(m)));
        }
        ChordResponseView::Predecessor(Some(n)) => {
            let f = spec_fmt_node_field(n);
            lemma_node_field_roundtrip(n);
            assert(s =~= "PREDECESSOR="@ + f + seq![';']);
            assert(s[0] == 'P');
            lemma_prefix_differs(s, "SUCCESSOR="@, 0);
            lemma_prefix_differs(s, "SUCCESSOR_LIST={"@, 0);
            assert(s.len() >= 50);
            assert(s != "PREDECESSOR=NONE;"@) by {
                if s == "PREDECESSOR=NONE;"@ {
                    assert(s.len() == 17);
                }
            }
            assert(s.take(12) =~= "PREDECESSOR="@);
            assert(s.len() > 13);
            assert(s.last() == ';');
            assert(s.subrange(12, s.len() - 1) =~= f);
            assert(spec_parse_predecessor_response(s) == Ok::<
                Option<ChordResponseView>,
                ParseError,
            >(Some(m)));
        }
        ChordResponseView::Active => {
            assert(s == "ACTIVE;"@);
            assert(s.len() == 7);
            assert(!starts_with(s, "SUCCESSOR="@));
            assert(!starts_with(s, "SUCCESSOR_LIST={"@));
            assert(s != "PREDECESSOR=NONE;"@) by {
                if s == "PREDECESSOR=NONE;"@ {
                    assert(s.len() == 17);
                }
            }
            assert(!starts_with(s, "PREDECESSOR="@));
            assert(spec_parse_active_response(s) == Some(m));
        }
        ChordResponseView::Error(msg) => {
            assert(s =~= "ERROR=["@ + msg + seq![']', ';']);
            assert(s[0] == 'E');
            lemma_prefix_differs(s, "SUCCESSOR="@, 0);
            lemma_prefix_differs(s, "SUCCESSOR_LIST={"@, 0);
            lemma_prefix_differs(s, "PREDECESSOR="@, 0);
            assert(s != "PREDECESSOR=NONE;"@) by {
                if s == "PREDECESSOR=NONE;"@ {
                    assert(s[0] == 'P');
                }
            }
            assert(s != "ACTIVE;"@) by {
                if s == "ACTIVE;"@ {
                    assert(s[0] == 'A');
                }
            }
            assert(s.take(7) =~= "ERROR=["@);
            assert(s.len() >= 10);
            assert(s[s.len() - 2] == ']');
            assert(s.last() == ';');
            assert(s.subrange(7, s.len() - 2) =~= msg);
            assert(spec_parse_error_response(s) == Some(ChordResponseView::Error(msg)));
        }
    }
}


// ---------------------------------------------------------------------------
// Requests
// ---------------------------------------------------------------------------

/// Parses a `FIND_SUCCESSOR_OF_NODE=[id][addr];` request.
pub open spec fn spec_parse_find_successor_request(s: Seq<char>) -> Result<
    Option<ChordRequest>,
    ParseError,
> {
    if starts_with(s, "FIND_SUCCESSOR_OF_NODE="@) && s.len() > 24 && s.last() == ';' {
        match spec_parse_node_field(s.subrange(23, s.len() - 1)) {
            Some(Ok(n)) => Ok(Some(ChordRequest::FindSuccessorOfNode(n))),
            Some(Err(e)) => Err(e),
            None => Ok(None),
        }
    } else {
        Ok(None)
    }
}

/// Parses a `NOTIFICATION_BY=[id][addr];` request.
pub open spec fn spec_parse_notification_by_request(s: Seq<char>) -> Result<
    Option<ChordRequest>,
    ParseError,
> {
    if starts_with(s, "NOTIFICATION_BY="@) && s.len() > 17 && s.last() == ';' {
        match spec_parse_node_field(s.subrange(16, s.len() - 1)) {
            Some(Ok(n)) => Ok(Some(ChordRequest::NotificationBy(n))),
            Some(Err(e)) => Err(e),
            None => Ok(None),
        }
    } else {
        Ok(None)
    }
}

/// Parses any Chord request, trying each shape in turn.
pub open spec fn spec_parse_request(s: Seq<char>) -> Result<ChordRequest, ParseError> {
    match spec_parse_find_successor_request(s) {
        Err(e) => Err(e),
        Ok(Some(m)) => Ok(m),
        Ok(None) => if s == "GET_SUCCESSOR_LIST;"@ {
            Ok(ChordRequest::GetSuccessorList)
        } else if s == "GET_PREDECESSOR;"@ {
            Ok(ChordRequest::GetPredecessor)
        } else {
            match spec_parse_notification_by_request(s) {
                Err(e) => Err(e),
                Ok(Some(m)) => Ok(m),
                Ok(None) => if s == "CHECK_NODE;"@ {
                    Ok(ChordRequest::CheckNode)
                } else {
                    Err(ParseError::Protocol)
                },
            }
        },
    }
}

/// The wire text of a request.
pub open spec fn spec_serialize_request(m: ChordRequest) -> Seq<char> {
    match m {
        ChordRequest::FindSuccessorOfNode(n) => "FIND_SUCCESSOR_OF_NODE="@ + spec_fmt_node_field(
            n,
        ) + seq![';'],
        ChordRequest::GetSuccessorList => "GET_SUCCESSOR_LIST;"@,
        ChordRequest::GetPredecessor => "GET_PREDECESSOR;"@,
        ChordRequest::NotificationBy(n) => "NOTIFICATION_BY="@ + spec_fmt_node_field(n)
            + seq![';'],
        ChordRequest::CheckNode => "CHECK_NODE;"@,
    }
}

impl ChordRequest {
    /// Parses a string slice into a `ChordRequest` according to the
    /// protocol.
    pub fn parse(request: &str) -> (r: Result<ChordRequest, ParseError>)
        ensures
            r == spec_parse_request(request@),
    {
        match Self::parse_find_successor_of_node_request_protocol(request) {
            Err(e) => {
                return Err(e);
            }
            Ok(Some(m)) => {
                return Ok(m);
            }
            Ok(None) => {}
        }
        if Self::parse_get_successor_list_request_protocol(request) {
            return Ok(ChordRequest::GetSuccessorList);
        }
        if Self::parse_get_predecessor_request_protocol(request) {
            return Ok(ChordRequest::GetPredecessor);
        }
        match Self::parse_notification_by_request_protocol(request) {
            Err(e) => {
                return Err(e);
            }
            Ok(Some(m)) => {
                return Ok(m);
            }
            Ok(None) => {}
        }
        if Self::parse_check_node_request_protocol(request) {
            return Ok(ChordRequest::CheckNode);
        }
        Err(ParseError::Protocol)
    }

    fn parse_find_successor_of_node_request_protocol(request: &str) -> (r: Result<
        Option<ChordRequest>,
        ParseError,
    >)
        ensures
            r == spec_parse_find_successor_request(request@),
    {
        let len = request.unicode_len();
        if !has_prefix(request, "FIND_SUCCESSOR_OF_NODE=") {
            return Ok(None);
        }
        if len <= 24 || request.get_char(len - 1) != ';' {
            return Ok(None);
        }
        let field = request.substring_char(23, len - 1);
        proof {
            reveal_strlit("FIND_SUCCESSOR_OF_NODE=");
        }
        match parse_node_field(field) {
            Some(Ok(n)) => Ok(Some(ChordRequest::FindSuccessorOfNode(n))),
            Some(Err(e)) => Err(e),
            None => Ok(None),
        }
    }

    fn parse_get_successor_list_request_protocol(request: &str) -> (r: bool)
        ensures
            r == (request@ == "GET_SUCCESSOR_LIST;"@),
    {
        str_eq(request, "GET_SUCCESSOR_LIST;")
    }

    fn parse_get_predecessor_request_protocol(request: &str) -> (r: bool)
        ensures
            r == (request@ == "GET_PREDECESSOR;"@),
    {
        str_eq(request, "GET_PREDECESSOR;")
    }

    fn parse_notification_by_request_protocol(request: &str) -> (r: Result<
        Option<ChordRequest>,
        ParseError,
    >)
        ensures
            r == spec_parse_notification_by_request(request@),
    {
        let len = request.unicode_len();
        if !has_prefix(request, "NOTIFICATION_BY=") {
            return Ok(None);
        }
        if len <= 17 || request.get_char(len - 1) != ';' {
            return Ok(None);
        }
        let field = request.substring_char(16, len - 1);
        proof {
            reveal_strlit("NOTIFICATION_BY=");
        }
        match parse_node_field(field) {
            Some(Ok(n)) => Ok(Some(ChordRequest::NotificationBy(n))),
            Some(Err(e)) => Err(e),
            None => Ok(None),
        }
    }

    fn parse_check_node_request_protocol(request: &str) -> (r: bool)
        ensures
            r == (request@ == "CHECK_NODE;"@),
    {
        str_eq(request, "CHECK_NODE;")
    }

    /// Converts the request into its text-based representation according to
    /// the protocol.
    pub fn to_protocol_text(&self) -> (r: String)
        ensures
            r@ == spec_serialize_request(*self),
    {
        let mut out = String::new();
        match self {
            ChordRequest::FindSuccessorOfNode(n) => {
                out.append("FIND_SUCCESSOR_OF_NODE=");
                append_node_field(&mut out, n);
                push_char(&mut out, ';');
                proof {
                    assert(out@ =~= spec_serialize_request(*self));
                }
            }
            ChordRequest::GetSuccessorList => {
                out.append("GET_SUCCESSOR_LIST;");
                proof {
                    assert(out@ =~= spec_serialize_request(*self));
                }
            }
            ChordRequest::GetPredecessor => {
                out.append("GET_PREDECESSOR;");
                proof {
                    assert(out@ =~= spec_serialize_request(*self));
                }
            }
            ChordRequest::NotificationBy(n) => {
                out.append("NOTIFICATION_BY=");
                append_node_field(&mut out, n);
                push_char(&mut out, ';');
                proof {
                    assert(out@ =~= spec_serialize_request(*self));
                }
            }
            ChordRequest::CheckNode => {
                out.append("CHECK_NODE;");
                proof {
                    assert(out@ =~= spec_serialize_request(*self));
                }
            }
        }
        out
    }
}

/// Serializing any request and parsing the text yields the same request:
/// the codec round trip.
#[verifier::rlimit(30)]
pub proof fn lemma_chord_request_roundtrip(m: ChordRequest)
    ensures
        spec_parse_request(spec_serialize_request(m)) == Ok::<ChordRequest, ParseError>(m),
{
    reveal_strlit("FIND_SUCCESSOR_OF_NODE=");
    reveal_strlit("GET_SUCCESSOR_LIST;");
    reveal_strlit("GET_PREDECESSOR;");
    reveal_strlit("NOTIFICATION_BY=");
    reveal_strlit("CHECK_NODE;");
    let s = spec_serialize_request(m);
    match m {
        ChordRequest::FindSuccessorOfNode(n) => {
            let f = spec_fmt_node_field(n);
            lemma_node_field_roundtrip(n);
            assert(s =~= "FIND_SUCCESSOR_OF_NODE="@ + f + seq![';']);
            assert(s.take(23) =~= "FIND_SUCCESSOR_OF_NODE="@);
            assert(s.len() > 24);
            assert(s.last() == ';');
            assert(s.subrange(23, s.len() - 1) =~= f);
            assert(spec_parse_find_successor_request(s) == Ok::<Option<ChordRequest>, ParseError>(
                Some(m),
            ));
        }
        ChordRequest::GetSuccessorList => {
            assert(s == "GET_SUCCESSOR_LIST;"@);
            assert(s[0] == 'G');
            lemma_prefix_differs(s, "FIND_SUCCESSOR_OF_NODE="@, 0);
        }
        ChordRequest::GetPredecessor => {
            assert(s == "GET_PREDECESSOR;"@);
            assert(s[0] == 'G');
            lemma_prefix_differs(s, "FIND_SUCCESSOR_OF_NODE="@, 0);
            assert(s != "GET_SUCCESSOR_LIST;"@) by {
                if s == "GET_SUCCESSOR_LIST;"@ {
                    assert(s.len() == 19);
                }
            }
        }
        ChordRequest::NotificationBy(n) => {
            let f = spec_fmt_node_field(n);
            lemma_node_field_roundtrip(n);
            assert(s =~= "NOTIFICATION_BY="@ + f + seq![';']);
            assert(s[0] == 'N');
            lemma_prefix_differs(s, "FIND_SUCCESSOR_OF_NODE="@, 0);
            assert(s.len() >= 54);
            assert(s != "GET_SUCCESSOR_LIST;"@) by {
                if s == "GET_SUCCESSOR_LIST;"@ {
                    assert(s.len() == 19);
                }
            }
            assert(s != "GET_PREDECESSOR;"@) by {
                if s == "GET_PREDECESSOR;"@ {
                    assert(s.len() == 16);
                }
            }
            assert(s.take(16) =~= "NOTIFICATION_BY="@);
            assert(s.len() > 17);
            assert(s.last() == ';');
            assert(s.subrange(16, s.len() - 1) =~= f);
            assert(spec_parse_notification_by_request(s) == Ok::<Option<ChordRequest>, ParseError>(
                Some(m),
            ));
        }
        ChordRequest::CheckNode => {
            assert(s == "CHECK_NODE;"@);
            assert(s[0] == 'C');
            assert(s.len() == 11);
            lemma_prefix_differs(s, "FIND_SUCCESSOR_OF_NODE="@, 0);
            assert(s != "GET_SUCCESSOR_LIST;"@) by {
                if s == "GET_SUCCESSOR_LIST;"@ {
                    assert(s.len() == 19);
                }
            }
            assert(s != "GET_PREDECESSOR;"@) by {
                if s == "GET_PREDECESSOR;"@ {
                    assert(s.len() == 16);
                }
            }
            assert(!starts_with(s, "NOTIFICATION_BY="@));
        }
    }
}


} // verus!
