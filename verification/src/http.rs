//! HTTP as the console speaks it: one request per connection, read in pieces.
use crate::bytes::{
    bytes_of, extend, find_subslice, first_place, lemma_first_place, lemma_first_place_holds, lossy,
    occurs, part, text_in_bytes,
};
use crate::console_auth::{is_loopback, local_bind};
use crate::json::{add_member, json_text, members, render, text_json, Doc, Json};
use crate::number::{decimal, decimal_of, law_decimal_reads_back, number_up_to, read_number};
use crate::order::TextMap;
use crate::text::{
    after_prefix, before_first, before_last, begins, find, find_last, glue2, glue3, lemma_find, lowered, same,
    same_ignoring_case, split, split_first, split_on, split_on_text, split_once, split_text,
    split_words, strip_prefix, take_before, take_before_last, text_opt, texts, trim, trimmed, words,
};
use vstd::prelude::*;
use vstd::string::*;
use vstd::utf8::{decode_utf8, encode_utf8, valid_utf8};

verus! {

/// The largest request body that will be buffered.
///
/// `Content-Length` is the caller's own claim. Pipeline documents and file
/// writes are far below this; anything above it is not a console request.
pub const MAX_BODY: usize = 33_554_432;

/// How much may arrive before the end of the headers has been seen.
pub const MAX_HEAD: usize = 1_048_576;

/// How long a single read may stall before the connection is abandoned, in
/// seconds. Generous per read, not per request, so a slow client on a bad link
/// is fine.
pub const READ_TIMEOUT_SECS: u64 = 30;

/// One request.
#[derive(Debug)]
pub struct Request {
    pub method: String,
    pub path: String,
    pub query: TextMap<String>,
    pub origin: Option<String>,
    pub host: Option<String>,
    /// `Authorization: Bearer <token>`, for API clients.
    pub authorization: Option<String>,
    /// Raw `Cookie` header, carrying the console's session id for browsers.
    pub cookie: Option<String>,
    pub body: Vec<u8>,
}

// ---------------------------------------------------------------------------
// The target of a request
// ---------------------------------------------------------------------------

/// The value of a hexadecimal digit.
pub open spec fn hex(b: u8) -> Option<int> {
    if 48 <= b <= 57 {
        Some(b - 48)
    } else if 97 <= b <= 102 {
        Some(b - 97 + 10)
    } else if 65 <= b <= 70 {
        Some(b - 65 + 10)
    } else {
        None
    }
}

/// The value of a hexadecimal digit.
pub fn hex_val(b: u8) -> (r: Option<u8>)
    ensures
        match r {
            Some(v) => hex(b) == Some(v as int) && v < 16,
            None => hex(b) is None,
        },
{
    if 48 <= b && b <= 57 {
        Some(b - 48)
    } else if 97 <= b && b <= 102 {
        Some(b - 97 + 10)
    } else if 65 <= b && b <= 70 {
        Some(b - 65 + 10)
    } else {
        None
    }
}

/// Bytes with `%xx` read as the byte it writes and `+` as a space. A `%` that no
/// two hexadecimal digits follow stands for itself.
pub open spec fn unescaped(s: Seq<u8>) -> Seq<u8>
    decreases s.len(),
{
    if s.len() == 0 {
        Seq::empty()
    } else if s[0] == 37 && s.len() > 2 && hex(s[1]) is Some && hex(s[2]) is Some {
        seq![(hex(s[1])->0 * 16 + hex(s[2])->0) as u8] + unescaped(s.skip(3))
    } else if s[0] == 43 {
        seq![32u8] + unescaped(s.skip(1))
    } else {
        seq![s[0]] + unescaped(s.skip(1))
    }
}

/// The text that an escaped text stands for.
pub open spec fn url_decoded(s: Seq<char>) -> Seq<char> {
    lossy(unescaped(encode_utf8(s)))
}

/// The text that an escaped text stands for.
pub fn url_decode(s: &str) -> (r: String)
    ensures
        r@ == url_decoded(s@),
        valid_utf8(unescaped(encode_utf8(s@))) ==> r@ == decode_utf8(unescaped(encode_utf8(s@))),
{
    let bytes = s.as_bytes();
    let mut out: Vec<u8> = Vec::new();
    let mut i: usize = 0;
    assert(bytes@.skip(0) == bytes@);
    assert(out@ + unescaped(bytes@) == unescaped(bytes@));
    while i < bytes.len()
        invariant
            i <= bytes@.len(),
            out@ + unescaped(bytes@.skip(i as int)) == unescaped(bytes@),
        decreases bytes@.len() - i,
    {
        let ghost rest = bytes@.skip(i as int);
        let ghost before = out@;
        let b = bytes[i];
        assert(rest[0] == b);
        assert(rest.skip(1) == bytes@.skip(i + 1));
        if b == 37 && bytes.len() - i > 2 {
            assert(rest[1] == bytes@[i + 1] && rest[2] == bytes@[i + 2]);
            assert(rest.skip(3) == bytes@.skip(i + 3));
            let h = (hex_val(bytes[i + 1]), hex_val(bytes[i + 2]));
            if let (Some(hi), Some(lo)) = h {
                out.push(hi * 16 + lo);
                assert(out@ + unescaped(rest.skip(3)) == before + unescaped(rest));
                i = i + 3;
            } else {
                out.push(37);
                assert(out@ + unescaped(rest.skip(1)) == before + unescaped(rest));
                i = i + 1;
            }
        } else if b == 43 {
            out.push(32);
            assert(out@ + unescaped(rest.skip(1)) == before + unescaped(rest));
            i = i + 1;
        } else {
            out.push(b);
            assert(out@ + unescaped(rest.skip(1)) == before + unescaped(rest));
            i = i + 1;
        }
    }
    assert(bytes@.skip(i as int).len() == 0);
    assert(out@ + Seq::<u8>::empty() == out@);
    text_in_bytes(out.as_slice())
}

/// The name and the value in one piece of a query string.
pub open spec fn pair_in(piece: Seq<char>) -> (Seq<char>, Seq<char>) {
    match split_first(piece, '=') {
        Some(p) => (url_decoded(p.0), url_decoded(p.1)),
        None => (url_decoded(piece), url_decoded(Seq::empty())),
    }
}

/// What the pieces of a query string say; of two with one name, the later.
pub open spec fn pairs_in(pieces: Seq<Seq<char>>) -> Map<Seq<char>, Seq<char>>
    decreases pieces.len(),
{
    if pieces.len() == 0 {
        Map::empty()
    } else {
        let before = pairs_in(pieces.drop_last());
        let piece = pieces.last();
        if piece.len() == 0 {
            before
        } else {
            before.insert(pair_in(piece).0, pair_in(piece).1)
        }
    }
}

/// The path of a request target.
pub open spec fn path_in(target: Seq<char>) -> Seq<char> {
    before_first(target, '?')
}

/// The query of a request target.
pub open spec fn query_in(target: Seq<char>) -> Map<Seq<char>, Seq<char>> {
    match split_first(target, '?') {
        Some(p) => pairs_in(split(p.1, '&')),
        None => Map::empty(),
    }
}

/// A map to texts, as a map to the characters they hold.
pub open spec fn map_texts(m: Map<Seq<char>, String>) -> Map<Seq<char>, Seq<char>> {
    m.map_values(|s: String| s@)
}

/// The path and the query of a request target.
pub fn split_query(target: &str) -> (r: (String, TextMap<String>))
    ensures
        r.0@ == path_in(target@),
        map_texts(r.1@) == query_in(target@),
{
    let mut q: TextMap<String> = TextMap::new();
    let path = take_before(target, '?');
    match split_once(target, '?') {
        Some((_before, qs)) => {
            let pieces = split_on(qs.as_str(), '&');
            let ghost all = texts(pieces@);
            let mut i: usize = 0;
            assert(map_texts(q@) == pairs_in(all.take(0)));
            while i < pieces.len()
                invariant
                    i <= pieces@.len(),
                    all == texts(pieces@),
                    map_texts(q@) == pairs_in(all.take(i as int)),
                decreases pieces@.len() - i,
            {
                let piece = pieces[i].as_str();
                assert(all.take(i + 1).drop_last() == all.take(i as int));
                assert(all.take(i + 1).last() == piece@);
                let ghost before = q@;
                if !piece.is_empty() {
                    let (k, v) = match split_once(piece, '=') {
                        Some((k, v)) => (url_decode(k.as_str()), url_decode(v.as_str())),
                        None => {
                            proof {
                                reveal_strlit("");
                                assert(""@ == Seq::<char>::empty());
                            }
                            (url_decode(piece), url_decode(""))
                        },
                    };
                    q.insert(k, v);
                    assert(map_texts(q@) == map_texts(before).insert(k@, v@));
                }
                i = i + 1;
            }
            assert(all.take(i as int) == all);
        },
        None => {
            assert(map_texts(q@) == Map::<Seq<char>, Seq<char>>::empty());
        },
    }
    (path, q)
}

// ---------------------------------------------------------------------------
// The head of a request
// ---------------------------------------------------------------------------

/// What the head of a request says.
pub struct HeadView {
    pub method: Seq<char>,
    pub path: Seq<char>,
    pub query: Map<Seq<char>, Seq<char>>,
    pub origin: Option<Seq<char>>,
    pub host: Option<Seq<char>>,
    pub authorization: Option<Seq<char>>,
    pub cookie: Option<Seq<char>>,
}

/// The value of the last header with that name.
pub open spec fn header(lines: Seq<Seq<char>>, name: Seq<char>) -> Option<Seq<char>>
    decreases lines.len(),
{
    if lines.len() == 0 {
        None
    } else {
        match split_first(lines.last(), ':') {
            Some(p) => if lowered(trimmed(p.0)) == name {
                Some(trimmed(p.1))
            } else {
                header(lines.drop_last(), name)
            },
            None => header(lines.drop_last(), name),
        }
    }
}

/// What a request's first line and headers say.
pub open spec fn head_in(text: Seq<char>) -> HeadView {
    let lines = split_text(text, "\r\n"@);
    let first = words(lines[0]);
    let rest = lines.drop_first();
    let target = if first.len() > 1 {
        first[1]
    } else {
        "/"@
    };
    HeadView {
        method: if first.len() > 0 {
            first[0]
        } else {
            "GET"@
        },
        path: path_in(target),
        query: query_in(target),
        origin: header(rest, "origin"@),
        host: header(rest, "host"@),
        authorization: header(rest, "authorization"@),
        cookie: header(rest, "cookie"@),
    }
}

/// How long the head says the body is. What is no number counts as nothing.
pub open spec fn length_in(text: Seq<char>) -> nat {
    match header(split_text(text, "\r\n"@).drop_first(), "content-length"@) {
        Some(v) => match number_up_to(v, usize::MAX as nat) {
            Some(n) => n,
            None => 0,
        },
        None => 0,
    }
}

/// What a request says, apart from its body.
pub open spec fn head_of(r: Request) -> HeadView {
    HeadView {
        method: r.method@,
        path: r.path@,
        query: map_texts(r.query@),
        origin: text_opt(r.origin),
        host: text_opt(r.host),
        authorization: text_opt(r.authorization),
        cookie: text_opt(r.cookie),
    }
}

/// The value of the last header with that name, from the second line on.
fn header_value(lines: &Vec<String>, name: &str) -> (r: Option<String>)
    requires
        lines@.len() > 0,
        lowered(name@) == name@,
    ensures
        text_opt(r) == header(texts(lines@).drop_first(), name@),
{
    let ghost all = texts(lines@).drop_first();
    let mut n: usize = lines.len() - 1;
    assert(all.take(n as int) == all);
    while n > 0
        invariant
            n < lines@.len(),
            all == texts(lines@).drop_first(),
            lowered(name@) == name@,
            header(all, name@) == header(all.take(n as int), name@),
        decreases n,
    {
        assert(all.take(n as int).last() == lines@[n as int]@);
        assert(all.take(n as int).drop_last() == all.take(n - 1));
        if let Some((k, v)) = split_once(lines[n].as_str(), ':') {
            let key = trim(k.as_str());
            if same_ignoring_case(key.as_str(), name) {
                return Some(trim(v.as_str()));
            }
        }
        n = n - 1;
    }
    None
}

/// Read a request's first line and headers, and how long they say the body is.
pub fn parse_head(head: &str) -> (r: (Request, usize))
    ensures
        head_of(r.0) == head_in(head@),
        r.0.body@.len() == 0,
        r.1 == length_in(head@),
{
    proof {
        reveal_strlit("\r\n");
        reveal_strlit("origin");
        reveal_strlit("host");
        reveal_strlit("authorization");
        reveal_strlit("cookie");
        reveal_strlit("content-length");
        assert(lowered("origin"@) == "origin"@);
        assert(lowered("host"@) == "host"@);
        assert(lowered("authorization"@) == "authorization"@);
        assert(lowered("cookie"@) == "cookie"@);
        assert(lowered("content-length"@) == "content-length"@);
    }
    let lines = split_on_text(head, "\r\n");
    assert(texts(lines@)[0] == lines@[0]@);
    let first = split_words(lines[0].as_str());
    assert(texts(first@).len() == first@.len());
    let method = if first.len() > 0 {
        assert(texts(first@)[0] == first@[0]@);
        first[0].clone()
    } else {
        "GET".to_owned()
    };
    let target = if first.len() > 1 {
        assert(texts(first@)[1] == first@[1]@);
        first[1].clone()
    } else {
        "/".to_owned()
    };
    let (path, query) = split_query(target.as_str());
    let length: usize = match header_value(&lines, "content-length") {
        Some(v) => match read_number(v.as_str(), usize::MAX as u64) {
            Some(n) => n as usize,
            None => 0,
        },
        None => 0,
    };
    let r = Request {
        method,
        path,
        query,
        origin: header_value(&lines, "origin"),
        host: header_value(&lines, "host"),
        authorization: header_value(&lines, "authorization"),
        cookie: header_value(&lines, "cookie"),
        body: Vec::new(),
    };
    (r, length)
}

// ---------------------------------------------------------------------------
// A request as it arrives
// ---------------------------------------------------------------------------

/// What separates the head of a request from its body.
pub open spec fn head_mark() -> Seq<u8> {
    seq![13u8, 10u8, 13u8, 10u8]
}

/// How much of a request has arrived.
pub enum IntakeView {
    /// Part of the head.
    Head(Seq<u8>),
    /// The head, the length it gives the body, and part of the body.
    Body(HeadView, nat, Seq<u8>),
}

/// What a further read leads to.
pub enum Arrival {
    More(IntakeView),
    Whole(HeadView, Seq<u8>),
    Refused(Seq<char>),
}

/// What holds once part of the body has arrived.
pub open spec fn with_body(head: HeadView, length: nat, body: Seq<u8>) -> Arrival {
    if body.len() >= length {
        Arrival::Whole(head, body.take(length as int))
    } else {
        Arrival::More(IntakeView::Body(head, length, body))
    }
}

/// What holds once these bytes have arrived.
pub open spec fn with_head(buf: Seq<u8>) -> Arrival {
    match first_place(buf, head_mark()) {
        Some(i) => {
            let text = lossy(buf.take(i));
            let length = length_in(text);
            if length > MAX_BODY {
                Arrival::Refused("request body too large ("@ + decimal(length) + " bytes)"@)
            } else {
                with_body(head_in(text), length, buf.skip(i + 4))
            }
        },
        None => if buf.len() > MAX_HEAD {
            Arrival::Refused("request headers too large"@)
        } else {
            Arrival::More(IntakeView::Head(buf))
        },
    }
}

/// What a read of `chunk` leads to. An empty one is the end of the connection.
pub open spec fn arrival(so_far: IntakeView, chunk: Seq<u8>) -> Arrival {
    match so_far {
        IntakeView::Head(buf) => if chunk.len() == 0 {
            Arrival::Refused("connection closed before request"@)
        } else {
            with_head(buf + chunk)
        },
        IntakeView::Body(head, length, body) => if chunk.len() == 0 {
            Arrival::Whole(head, body)
        } else {
            with_body(head, length, body + chunk)
        },
    }
}

/// What the reader of a connection is to do next.
#[derive(Debug)]
pub enum Step {
    /// Read again.
    More,
    /// The request is complete.
    Whole(Request),
    /// Give the connection up, for this reason.
    Refused(String),
}

/// A request that is still arriving.
pub struct Intake {
    /// The head and its length of body, once it is complete.
    head: Option<(Request, usize)>,
    /// What has arrived of the head, or else of the body.
    buf: Vec<u8>,
}

impl View for Intake {
    type V = IntakeView;

    closed spec fn view(&self) -> IntakeView {
        match self.head {
            None => IntakeView::Head(self.buf@),
            Some(h) => IntakeView::Body(head_of(h.0), h.1 as nat, self.buf@),
        }
    }
}

impl Intake {
    /// Nothing has arrived yet.
    pub fn new() -> (r: Intake)
        ensures
            r@ == IntakeView::Head(Seq::empty()),
    {
        let r = Intake { head: None, buf: Vec::new() };
        assert(r.buf@ == Seq::<u8>::empty());
        r
    }

    /// Take in what one read gave. An empty chunk is the end of the connection.
    /// Once it has answered anything but [`Step::More`] the intake is spent.
    pub fn feed(&mut self, chunk: &[u8]) -> (r: Step)
        ensures
            match arrival(old(self)@, chunk@) {
                Arrival::More(next) => r is More && final(self)@ == next,
                Arrival::Whole(head, body) => r matches Step::Whole(q) && head_of(q) == head
                    && q.body@ == body,
                Arrival::Refused(why) => r matches Step::Refused(e) && e@ == why,
            },
    {
        let mut head: Option<(Request, usize)> = None;
        std::mem::swap(&mut head, &mut self.head);
        match head {
            None => {
                if chunk.len() == 0 {
                    return Step::Refused("connection closed before request".to_owned());
                }
                extend(&mut self.buf, chunk);
                let mark: Vec<u8> = vec![13u8, 10u8, 13u8, 10u8];
                assert(mark@ == head_mark());
                match find_subslice(&self.buf, mark.as_slice()) {
                    Some(i) => {
                        let top = part(&self.buf, 0, i);
                        assert(top@ == self.buf@.take(i as int));
                        let text = text_in_bytes(top.as_slice());
                        let (request, length) = parse_head(text.as_str());
                        if length > MAX_BODY {
                            let n = decimal_of(length as u64);
                            return Step::Refused(
                                glue3("request body too large (", n.as_str(), " bytes)"),
                            );
                        }
                        let total: usize = self.buf.len();
                        let body = part(&self.buf, i + 4, total);
                        assert(body@ == self.buf@.skip(i + 4));
                        self.advance(request, length, body)
                    },
                    None => {
                        if self.buf.len() > MAX_HEAD {
                            Step::Refused("request headers too large".to_owned())
                        } else {
                            Step::More
                        }
                    },
                }
            },
            Some((request, length)) => {
                let mut body: Vec<u8> = Vec::new();
                std::mem::swap(&mut body, &mut self.buf);
                if chunk.len() == 0 {
                    let mut whole = request;
                    whole.body = body;
                    return Step::Whole(whole);
                }
                extend(&mut body, chunk);
                self.advance(request, length, body)
            },
        }
    }

    /// Take in part of the body.
    fn advance(&mut self, request: Request, length: usize, body: Vec<u8>) -> (r: Step)
        ensures
            match with_body(head_of(request), length as nat, body@) {
                Arrival::More(next) => r is More && final(self)@ == next,
                Arrival::Whole(head, b) => r matches Step::Whole(q) && head_of(q) == head
                    && q.body@ == b,
                Arrival::Refused(_) => false,
            },
    {
        if body.len() >= length {
            let mut whole = request;
            whole.body = part(&body, 0, length);
            assert(whole.body@ == body@.take(length as int));
            Step::Whole(whole)
        } else {
            self.head = Some((request, length));
            self.buf = body;
            Step::More
        }
    }
}

/// A caller cannot name the size of its own request: what is held back stays
/// within the limits, and so does the body of a request that is let through.
pub proof fn law_an_unidentified_caller_is_bounded(so_far: IntakeView, chunk: Seq<u8>)
    requires
        match so_far {
            IntakeView::Head(_) => true,
            IntakeView::Body(_, length, body) => body.len() < length <= MAX_BODY,
        },
    ensures
        match arrival(so_far, chunk) {
            Arrival::More(IntakeView::Head(buf)) => buf.len() <= MAX_HEAD,
            Arrival::More(IntakeView::Body(_, length, body)) => body.len() < length <= MAX_BODY,
            Arrival::Whole(_, body) => body.len() <= MAX_BODY,
            Arrival::Refused(_) => true,
        },
{
}

/// A declared body that is too large is refused as soon as the head is there,
/// whatever of it has been delivered.
pub proof fn law_an_outsized_body_is_refused_unread(buf: Seq<u8>, i: int)
    requires
        first_place(buf, head_mark()) == Some(i),
        length_in(lossy(buf.take(i))) > MAX_BODY,
    ensures
        with_head(buf) is Refused,
{
}

/// How the bytes of a request were cut up on the way does not matter: two reads
/// lead to what one read of both would, as long as the head stays within its
/// limit.
pub proof fn law_cuts_do_not_matter(buf: Seq<u8>, a: Seq<u8>, b: Seq<u8>)
    requires
        a.len() > 0,
        b.len() > 0,
        (buf + a).len() <= MAX_HEAD,
    ensures
        arrival(IntakeView::Head(buf), a + b) == match arrival(IntakeView::Head(buf), a) {
            Arrival::More(next) => arrival(next, b),
            done => done,
        },
{
    let one = buf + a;
    let both = one + b;
    assert(buf + (a + b) == both);
    lemma_first_place_holds(one, head_mark());
    lemma_first_place_holds(both, head_mark());
    match first_place(one, head_mark()) {
        Some(i) => {
            assert(both.subrange(i, i + 4) == one.subrange(i, i + 4));
            assert(occurs(both, head_mark(), i));
            assert forall|j: int| 0 <= j < i implies !occurs(both, head_mark(), j) by {
                if occurs(both, head_mark(), j) {
                    assert(both.subrange(j, j + 4) == one.subrange(j, j + 4));
                    assert(occurs(one, head_mark(), j));
                }
            }
            lemma_first_place(both, head_mark(), i);
            assert(both.take(i) == one.take(i));
            let text = lossy(one.take(i));
            let length = length_in(text);
            let rest = one.skip(i + 4);
            assert(both.skip(i + 4) == rest + b);
            if length <= MAX_BODY && rest.len() >= length {
                assert((rest + b).take(length as int) == rest.take(length as int));
            }
        },
        None => {},
    }
}

// ---------------------------------------------------------------------------
// Who may change things
// ---------------------------------------------------------------------------

/// An address without its scheme.
pub open spec fn without_scheme(s: Seq<char>) -> Seq<char> {
    match after_prefix(s, "http://"@) {
        Some(rest) => rest,
        None => match after_prefix(s, "https://"@) {
            Some(rest) => rest,
            None => s,
        },
    }
}

/// The host in an `Origin` or `Host` header: no scheme, port or path, and no
/// brackets round an IPv6 address.
pub open spec fn host_in(s: Seq<char>) -> Seq<char> {
    let address = before_first(without_scheme(trimmed(s)), '/');
    if address.len() > 0 && address[0] == '[' {
        before_first(address.drop_first(), ']')
    } else {
        before_last(address, ':')
    }
}

/// The host in an `Origin` or `Host` header.
pub fn header_host(s: &str) -> (r: String)
    ensures
        r@ == host_in(s@),
{
    let t = trim(s);
    let bare = match strip_prefix(t.as_str(), "http://") {
        Some(rest) => rest,
        None => match strip_prefix(t.as_str(), "https://") {
            Some(rest) => rest,
            None => t,
        },
    };
    let address = take_before(bare.as_str(), '/');
    proof {
        reveal_strlit("[");
        if begins(address@, "["@) {
            assert(address@.take(1)[0] == '[');
        } else if address@.len() > 0 && address@[0] == '[' {
            assert(address@.take(1) == "["@);
        }
        assert(address@.len() > 0 ==> address@.skip(1) == address@.drop_first());
    }
    match strip_prefix(address.as_str(), "[") {
        Some(rest) => take_before(rest.as_str(), ']'),
        None => take_before_last(address.as_str(), ':'),
    }
}

/// The ways to name this machine to itself.
pub open spec fn loopback_name(h: Seq<char>) -> bool {
    h == "127.0.0.1"@ || h == "localhost"@ || h == "::1"@
}

/// Whether a host is this machine.
pub fn is_loopback_host(h: &str) -> (r: bool)
    ensures
        r == loopback_name(h@),
{
    same(h, "127.0.0.1") || same(h, "localhost") || same(h, "::1")
}

/// Whether a request that changes something may come from where it comes from.
/// On a loopback bind the `Host` has to be loopback as well, so that a name
/// rebound to this machine cannot drive it. An `Origin` has to be loopback, the
/// bound host, or the host that the request names.
pub open spec fn local_enough(origin: Option<Seq<char>>, host: Option<Seq<char>>, bound: Seq<char>) -> bool {
    &&& local_bind(bound) && host is Some ==> loopback_name(host_in(host->0))
    &&& origin is Some ==> {
        let from = host_in(origin->0);
        loopback_name(from) || from == bound || (host is Some && host_in(host->0) == from)
    }
}

/// Whether a state-changing request is allowed.
pub fn guard_local(req: &Request, bind_host: &str) -> (r: bool)
    ensures
        r == local_enough(text_opt(req.origin), text_opt(req.host), bind_host@),
{
    if is_loopback(bind_host) {
        if let Some(h) = &req.host {
            let name = header_host(h.as_str());
            if !is_loopback_host(name.as_str()) {
                return false;
            }
        }
    }
    if let Some(o) = &req.origin {
        let from = header_host(o.as_str());
        let same_as_host = match &req.host {
            Some(h) => {
                let name = header_host(h.as_str());
                same(name.as_str(), from.as_str())
            },
            None => false,
        };
        if !(is_loopback_host(from.as_str()) || same(from.as_str(), bind_host) || same_as_host) {
            return false;
        }
    }
    true
}

/// A host that is read out of a header has no bracket at both ends.
proof fn lemma_host_is_bare(s: Seq<char>)
    ensures
        host_in(s) != "[::1]"@,
{
    reveal_strlit("[::1]");
    assert("[::1]"@.len() == 5);
    let address = before_first(without_scheme(trimmed(s)), '/');
    if address.len() > 0 && address[0] == '[' {
        let rest = address.drop_first();
        lemma_find(rest, ']');
        if host_in(s) == "[::1]"@ {
            assert(host_in(s)[4] == ']');
            assert(rest.take(find(rest, ']')).len() == 5);
            assert(rest.take(find(rest, ']'))[4] == rest[4]);
        }
    } else if host_in(s) == "[::1]"@ {
        assert(host_in(s)[0] == '[');
        assert(before_last(address, ':').len() == 5);
        assert(before_last(address, ':')[0] == address[0]);
    }
}

/// A page from another site cannot drive a console on this machine: a request
/// with a foreign origin, sent to a loopback bind, is refused.
pub proof fn law_a_foreign_origin_is_refused(origin: Seq<char>, host: Option<Seq<char>>, bound: Seq<char>)
    requires
        local_bind(bound),
        !loopback_name(host_in(origin)),
    ensures
        !local_enough(Some(origin), host, bound),
{
    lemma_host_is_bare(origin);
}

/// A name rebound to this machine cannot drive a console that is bound to
/// loopback.
pub proof fn law_a_rebound_name_is_refused(origin: Option<Seq<char>>, host: Seq<char>, bound: Seq<char>)
    requires
        local_bind(bound),
        !loopback_name(host_in(host)),
    ensures
        !local_enough(origin, Some(host), bound),
{
}

/// A client that sends neither an origin nor a host is let through.
pub proof fn law_a_plain_client_is_let_through(bound: Seq<char>)
    ensures
        local_enough(None, None, bound),
{
}

/// Text without escapes decodes to itself.
pub proof fn law_plain_text_decodes_to_itself(s: Seq<u8>)
    requires
        forall|i: int| 0 <= i < s.len() ==> (#[trigger] s[i]) != 37 && s[i] != 43,
    ensures
        unescaped(s) == s,
    decreases s.len(),
{
    if s.len() > 0 {
        law_plain_text_decodes_to_itself(s.skip(1));
        assert(seq![s[0]] + s.skip(1) == s);
    }
}

// ---------------------------------------------------------------------------
// Replies
// ---------------------------------------------------------------------------

/// What is sent back.
#[derive(Debug)]
pub struct Reply {
    pub status: String,
    pub content_type: String,
    /// The `Set-Cookie` header, when there is one.
    pub cookie: Option<String>,
    pub body: Vec<u8>,
}

/// The head of a reply.
pub open spec fn reply_head(
    status: Seq<char>,
    content_type: Seq<char>,
    length: nat,
    cookie: Option<Seq<char>>,
) -> Seq<char> {
    "HTTP/1.1 "@ + status + "\r\nContent-Type: "@ + content_type + "\r\nContent-Length: "@ + decimal(
        length,
    ) + "\r\n"@ + (match cookie {
        Some(c) => "Set-Cookie: "@ + c + "\r\n"@,
        None => Seq::empty(),
    }) + "Connection: close\r\n\r\n"@
}

impl Reply {
    /// The head that goes before the body.
    pub fn head(&self) -> (r: String)
        ensures
            r@ == reply_head(
                self.status@,
                self.content_type@,
                self.body@.len(),
                text_opt(self.cookie),
            ),
    {
        let mut out = glue2("HTTP/1.1 ", self.status.as_str());
        out.append("\r\nContent-Type: ");
        out.append(self.content_type.as_str());
        out.append("\r\nContent-Length: ");
        let n = decimal_of(self.body.len() as u64);
        out.append(n.as_str());
        out.append("\r\n");
        match &self.cookie {
            Some(c) => {
                let line = glue3("Set-Cookie: ", c.as_str(), "\r\n");
                out.append(line.as_str());
            },
            None => {
                assert(out@ + Seq::<char>::empty() == out@);
            },
        }
        out.append("Connection: close\r\n\r\n");
        out
    }
}

/// Whether a reply is this and sets no cookie.
pub open spec fn is_reply(r: Reply, status: Seq<char>, content_type: Seq<char>, body: Seq<u8>) -> bool {
    &&& r.status@ == status
    &&& r.content_type@ == content_type
    &&& r.cookie is None
    &&& r.body@ == body
}

/// Whether a reply brings this value.
pub open spec fn brings(r: Reply, value: Doc) -> bool {
    is_reply(r, "200 OK"@, "application/json"@, encode_utf8(json_text(value)))
}

/// A failure, as a client reads it.
pub open spec fn error_doc(why: Seq<char>) -> Doc {
    Doc::Object(seq![("error"@, Doc::Text(why))])
}

/// Whether a reply reports this failure.
pub open spec fn reports(r: Reply, status: Seq<char>, why: Seq<char>) -> bool {
    is_reply(r, status, "application/json"@, encode_utf8(json_text(error_doc(why))))
}

/// Whether a reply turns a caller away in plain text.
pub open spec fn forbids(r: Reply, why: Seq<char>) -> bool {
    is_reply(r, "403 Forbidden"@, "text/plain"@, encode_utf8(why))
}

/// A reply with a body.
pub fn respond(status: &str, content_type: &str, body: Vec<u8>) -> (r: Reply)
    ensures
        is_reply(r, status@, content_type@, body@),
{
    Reply { status: status.to_owned(), content_type: content_type.to_owned(), cookie: None, body }
}

/// A reply that brings a value.
pub fn respond_json(value: &Json) -> (r: Reply)
    ensures
        brings(r, value@),
{
    let line = render(value);
    respond("200 OK", "application/json", bytes_of(line.as_str()))
}

/// A reply that reports a failure.
pub fn respond_err(status: &str, msg: &str) -> (r: Reply)
    ensures
        reports(r, status@, msg@),
{
    let mut m: Vec<(String, Json)> = Vec::new();
    add_member(&mut m, "error", text_json(msg));
    assert(members(m@) == seq![("error"@, Doc::Text(msg@))]);
    let line = render(&Json::Object(m));
    respond(status, "application/json", bytes_of(line.as_str()))
}

/// A reply that turns a caller away.
pub fn respond_403(msg: &str) -> (r: Reply)
    ensures
        forbids(r, msg@),
{
    respond("403 Forbidden", "text/plain", bytes_of(msg))
}

/// The value of a hex digit, and nothing for any other byte.
pub proof fn law_hex_digits(b: u8)
    ensures
        48 <= b <= 57 ==> hex(b) == Some(b as int - 48),
        65 <= b <= 70 ==> hex(b) == Some(b as int - 55),
        97 <= b <= 102 ==> hex(b) == Some(b as int - 87),
        b < 48 || (57 < b && b < 65) || (70 < b && b < 97) || b > 102 ==> hex(b) is None,
{
}

/// A percent sign and two hex digits stand for the byte they name, a plus sign for
/// a blank, and any other byte for itself; what follows is read by itself.
pub proof fn law_how_escapes_are_read(b: u8, x: u8, y: u8, rest: Seq<u8>)
    ensures
        unescaped(Seq::empty()) == Seq::<u8>::empty(),
        hex(x) is Some && hex(y) is Some ==> unescaped(seq![37u8, x, y] + rest) == seq![
            (hex(x)->0 * 16 + hex(y)->0) as u8,
        ] + unescaped(rest),
        unescaped(seq![43u8] + rest) == seq![32u8] + unescaped(rest),
        b != 37 && b != 43 ==> unescaped(seq![b] + rest) == seq![b] + unescaped(rest),
{
    let s = seq![37u8, x, y] + rest;
    assert(s.skip(3) == rest);
    assert((seq![43u8] + rest).skip(1) == rest);
    assert((seq![b] + rest).skip(1) == rest);
}

/// A query gives each name the value behind its equals sign, both decoded. Of two
/// values for one name the later counts, and an empty piece counts for nothing.
pub proof fn law_what_a_query_says(
    pieces: Seq<Seq<char>>,
    k: Seq<char>,
    v: Seq<char>,
    bare: Seq<char>,
)
    requires
        !k.contains('='),
        !bare.contains('='),
        bare.len() > 0,
    ensures
        pairs_in(Seq::empty()) == Map::<Seq<char>, Seq<char>>::empty(),
        pairs_in(pieces.push(k + "="@ + v)) == pairs_in(pieces).insert(
            url_decoded(k),
            url_decoded(v),
        ),
        pairs_in(pieces.push(bare)) == pairs_in(pieces).insert(
            url_decoded(bare),
            url_decoded(Seq::empty()),
        ),
        pairs_in(pieces.push(Seq::empty())) == pairs_in(pieces),
{
    reveal_strlit("=");
    let s = k + "="@ + v;
    lemma_find(s, '=');
    assert(s[k.len() as int] == '=');
    assert(s.contains('='));
    assert(find(s, '=') == k.len()) by {
        let i = find(s, '=');
        if i < k.len() {
            assert(s[i] == k[i]);
            assert(k.contains(k[i]));
        }
    }
    assert(s.take(k.len() as int) == k);
    assert(s.skip(k.len() as int + 1) == v);
    lemma_find(bare, '=');
    assert(pieces.push(s).drop_last() == pieces);
    assert(pieces.push(bare).drop_last() == pieces);
    assert(pieces.push(Seq::<char>::empty()).drop_last() == pieces);
}

/// The path of a target ends at its question mark, and the query starts behind
/// it.
pub proof fn law_where_the_query_starts(path: Seq<char>, query: Seq<char>)
    requires
        !path.contains('?'),
    ensures
        path_in(path + "?"@ + query) == path,
        query_in(path + "?"@ + query) == pairs_in(split(query, '&')),
        path_in(path) == path,
        query_in(path) == Map::<Seq<char>, Seq<char>>::empty(),
{
    reveal_strlit("?");
    let s = path + "?"@ + query;
    lemma_find(s, '?');
    lemma_find(path, '?');
    assert(s[path.len() as int] == '?');
    assert(s.contains('?'));
    assert(find(s, '?') == path.len()) by {
        let i = find(s, '?');
        if i < path.len() {
            assert(s[i] == path[i]);
            assert(path.contains(path[i]));
        }
    }
    assert(s.take(path.len() as int) == path);
    assert(s.skip(path.len() as int + 1) == query);
    assert(path.take(path.len() as int) == path);
}

/// A header is found by its name in any mix of case, without the blanks round its
/// value; the last of a name counts.
pub proof fn law_a_header_is_found_by_its_name(
    lines: Seq<Seq<char>>,
    name: Seq<char>,
    written: Seq<char>,
    value: Seq<char>,
)
    requires
        !written.contains(':'),
    ensures
        lowered(trimmed(written)) == name ==> header(lines.push(written + ":"@ + value), name) == Some(
            trimmed(value),
        ),
        lowered(trimmed(written)) != name ==> header(lines.push(written + ":"@ + value), name)
            == header(lines, name),
        header(Seq::empty(), name) is None,
{
    reveal_strlit(":");
    let s = written + ":"@ + value;
    lemma_find(s, ':');
    assert(s[written.len() as int] == ':');
    assert(s.contains(':'));
    assert(find(s, ':') == written.len()) by {
        let i = find(s, ':');
        if i < written.len() {
            assert(s[i] == written[i]);
            assert(written.contains(written[i]));
        }
    }
    assert(s.take(written.len() as int) == written);
    assert(s.skip(written.len() as int + 1) == value);
    assert(lines.push(s).drop_last() == lines);
}

/// The head of a request: its first line names the method and the target, and the
/// headers say who sent it, from where, to whom, and how long the body is.
pub proof fn law_what_a_head_says(text: Seq<char>, lines: Seq<Seq<char>>, method: Seq<char>, target: Seq<char>)
    requires
        lines == split_text(text, "\r\n"@),
        words(lines[0]).len() >= 2,
        words(lines[0])[0] == method,
        words(lines[0])[1] == target,
    ensures
        head_in(text).method == method,
        head_in(text).path == path_in(target),
        head_in(text).query == query_in(target),
        head_in(text).origin == header(lines.drop_first(), "origin"@),
        head_in(text).host == header(lines.drop_first(), "host"@),
        head_in(text).authorization == header(lines.drop_first(), "authorization"@),
        head_in(text).cookie == header(lines.drop_first(), "cookie"@),
{
}

/// A body is as long as the head says; what says no length that a body can have
/// has none.
pub proof fn law_how_long_the_body_is(text: Seq<char>, n: nat)
    ensures
        header(split_text(text, "\r\n"@).drop_first(), "content-length"@) == Some(decimal(n)) && n
            <= usize::MAX ==> length_in(text) == n,
        header(split_text(text, "\r\n"@).drop_first(), "content-length"@) is None ==> length_in(text)
            == 0,
{
    law_decimal_reads_back(n);
}

/// Once its head has come, a request is whole when its body has, to the byte, and
/// is waited for until then. It is refused where the head says that the body is
/// over 32 MiB.
pub proof fn law_when_a_request_is_whole(
    buf: Seq<u8>,
    chunk: Seq<u8>,
    i: int,
    text: Seq<char>,
    rest: Seq<u8>,
)
    requires
        chunk.len() > 0,
        first_place(buf + chunk, seq![13u8, 10u8, 13u8, 10u8]) == Some(i),
        text == lossy((buf + chunk).take(i)),
        rest == (buf + chunk).skip(i + 4),
    ensures
        length_in(text) > 33_554_432 ==> arrival(IntakeView::Head(buf), chunk) == Arrival::Refused(
            "request body too large ("@ + decimal(length_in(text)) + " bytes)"@,
        ),
        length_in(text) <= 33_554_432 && rest.len() < length_in(text) ==> arrival(
            IntakeView::Head(buf),
            chunk,
        ) == Arrival::More(IntakeView::Body(head_in(text), length_in(text), rest)),
        length_in(text) <= 33_554_432 && rest.len() >= length_in(text) ==> arrival(
            IntakeView::Head(buf),
            chunk,
        ) == Arrival::Whole(head_in(text), rest.take(length_in(text) as int)),
{
    assert(head_mark() == seq![13u8, 10u8, 13u8, 10u8]);
    assert(arrival(IntakeView::Head(buf), chunk) == with_head(buf + chunk));
}

/// Until its head has come a request is waited for, as long as what came is no
/// longer than 1 MiB and the connection has not ended.
pub proof fn law_a_head_is_waited_for(buf: Seq<u8>, chunk: Seq<u8>)
    requires
        chunk.len() > 0,
        first_place(buf + chunk, seq![13u8, 10u8, 13u8, 10u8]) is None,
    ensures
        (buf + chunk).len() > 1_048_576 ==> arrival(IntakeView::Head(buf), chunk) == Arrival::Refused(
            "request headers too large"@,
        ),
        (buf + chunk).len() <= 1_048_576 ==> arrival(IntakeView::Head(buf), chunk) == Arrival::More(
            IntakeView::Head(buf + chunk),
        ),
        arrival(IntakeView::Head(buf), Seq::empty()) == Arrival::Refused(
            "connection closed before request"@,
        ),
{
    assert(head_mark() == seq![13u8, 10u8, 13u8, 10u8]);
}

/// What comes after the head goes to the body, until it is complete or the
/// connection ends.
pub proof fn law_a_body_fills_up(head: HeadView, length: nat, body: Seq<u8>, chunk: Seq<u8>)
    ensures
        chunk.len() > 0 && body.len() + chunk.len() < length ==> arrival(
            IntakeView::Body(head, length, body),
            chunk,
        ) == Arrival::More(IntakeView::Body(head, length, body + chunk)),
        chunk.len() > 0 && body.len() + chunk.len() >= length ==> arrival(
            IntakeView::Body(head, length, body),
            chunk,
        ) == Arrival::Whole(head, (body + chunk).take(length as int)),
        arrival(IntakeView::Body(head, length, body), Seq::empty()) == Arrival::Whole(head, body),
{
}

/// The host in a header is what stands before the port, without a scheme, a path
/// or brackets.
pub proof fn law_what_the_host_is(name: Seq<char>, port: Seq<char>, path: Seq<char>)
    requires
        name.len() > 0,
        !name.contains('/') && !name.contains(':') && !name.contains('[') && !name.contains(']'),
        !port.contains('/') && !port.contains(':'),
        trimmed(name) == name,
        trimmed(name + ":"@ + port) == name + ":"@ + port,
        trimmed("http://"@ + name + "/"@ + path) == "http://"@ + name + "/"@ + path,
    ensures
        host_in(name) == name,
        host_in(name + ":"@ + port) == name,
        host_in("http://"@ + name + "/"@ + path) == name,
{
    reveal_strlit("http://");
    reveal_strlit("https://");
    reveal_strlit(":");
    reveal_strlit("/");
    assert("http://"@.len() == 7 && "http://"@[4] == ':' && "https://"@.len() == 8);
    assert("https://"@[5] == ':');
    // On its own.
    assert(without_scheme(name) == name) by {
        lemma_no_scheme(name);
    }
    lemma_find(name, '/');
    assert(name.take(name.len() as int) == name);
    assert(name[0] != '[') by {
        assert(name.contains(name[0]));
    }
    lemma_find_last_absent(name, ':');
    // With a port.
    let with_port = name + ":"@ + port;
    assert(without_scheme(with_port) == with_port) by {
        lemma_no_slash(with_port);
    }
    lemma_find(with_port, '/');
    assert(!with_port.contains('/')) by {
        lemma_no_slash(with_port);
    }
    assert(with_port.take(with_port.len() as int) == with_port);
    assert(with_port[0] == name[0]);
    lemma_find_last_before(name, port, ':');
    // In an address.
    let all = "http://"@ + name + "/"@ + path;
    assert(all.take(7) == "http://"@);
    let rest = name + "/"@ + path;
    assert(all.skip(7) == rest);
    lemma_find(rest, '/');
    assert(rest[name.len() as int] == '/');
    assert(rest.contains('/'));
    assert(find(rest, '/') == name.len()) by {
        let i = find(rest, '/');
        if i < name.len() {
            assert(rest[i] == name[i]);
            assert(name.contains(name[i]));
        }
    }
    assert(rest.take(name.len() as int) == name);
}

proof fn lemma_no_slash(s: Seq<char>)
    requires
        exists|name: Seq<char>, port: Seq<char>|
            s == #[trigger] (name + ":"@ + port) && !name.contains('/') && !port.contains('/'),
    ensures
        !s.contains('/'),
        without_scheme(s) == s,
{
    reveal_strlit(":");
    let (name, port) = choose|name: Seq<char>, port: Seq<char>|
        s == #[trigger] (name + ":"@ + port) && !name.contains('/') && !port.contains('/');
    if s.contains('/') {
        let i = choose|i: int| 0 <= i < s.len() && s[i] == '/';
        if i < name.len() {
            assert(name[i] == '/');
        } else if i > name.len() {
            assert(port[i - name.len() - 1] == '/');
        }
    }
    lemma_no_scheme(s);
}

proof fn lemma_no_scheme(s: Seq<char>)
    requires
        !s.contains('/'),
    ensures
        without_scheme(s) == s,
{
    reveal_strlit("http://");
    reveal_strlit("https://");
    if begins(s, "http://"@) {
        assert(s.take(7)[5] == s[5]);
        assert("http://"@[5] == '/');
    }
    if begins(s, "https://"@) {
        assert(s.take(8)[6] == s[6]);
        assert("https://"@[6] == '/');
    }
}

proof fn lemma_find_last_absent(s: Seq<char>, c: char)
    requires
        !s.contains(c),
    ensures
        before_last(s, c) == s,
{
    lemma_find_last(s, c);
}

proof fn lemma_find_last(s: Seq<char>, c: char)
    ensures
        -1 <= find_last(s, c) < s.len(),
        find_last(s, c) >= 0 ==> s[find_last(s, c)] == c,
        forall|i: int| find_last(s, c) < i < s.len() ==> s[i] != c,
    decreases s.len(),
{
    if s.len() > 0 && s.last() != c {
        let before = s.drop_last();
        lemma_find_last(before, c);
        assert forall|i: int| find_last(s, c) < i < s.len() implies s[i] != c by {
            if i < before.len() {
                assert(s[i] == before[i]);
            }
        }
    }
}

proof fn lemma_find_last_before(a: Seq<char>, b: Seq<char>, c: char)
    requires
        !b.contains(c),
        c == ':',
    ensures
        before_last(a + ":"@ + b, c) == a,
{
    reveal_strlit(":");
    let s = a + ":"@ + b;
    lemma_find_last(s, c);
    assert(s[a.len() as int] == c);
    let k = find_last(s, c);
    if k > a.len() {
        assert(b[k - a.len() - 1] == c);
    }
    assert(s.take(a.len() as int) == a);
}

/// An address in brackets is the host, whatever port stands behind it.
pub proof fn law_brackets_hold_the_host(address: Seq<char>, behind: Seq<char>)
    requires
        !address.contains(']') && !address.contains('/'),
        !behind.contains('/'),
        trimmed("["@ + address + "]"@ + behind) == "["@ + address + "]"@ + behind,
    ensures
        host_in("["@ + address + "]"@ + behind) == address,
{
    reveal_strlit("[");
    reveal_strlit("]");
    let s = "["@ + address + "]"@ + behind;
    assert(!s.contains('/')) by {
        if s.contains('/') {
            let i = choose|i: int| 0 <= i < s.len() && s[i] == '/';
            if 0 < i <= address.len() {
                assert(address[i - 1] == '/');
            } else if i > address.len() + 1 {
                assert(behind[i - address.len() - 2] == '/');
            }
        }
    }
    lemma_no_scheme(s);
    lemma_find(s, '/');
    assert(s.take(s.len() as int) == s);
    let rest = s.drop_first();
    assert(rest == address + "]"@ + behind);
    lemma_find(rest, ']');
    assert(rest[address.len() as int] == ']');
    assert(rest.contains(']'));
    assert(find(rest, ']') == address.len()) by {
        let i = find(rest, ']');
        if i < address.len() {
            assert(rest[i] == address[i]);
            assert(address.contains(address[i]));
        }
    }
    assert(rest.take(address.len() as int) == address);
}

/// When a request is near enough: one to a loopback bind names a loopback host,
/// and one from a page comes from a loopback host, from the bind, or from the host
/// it is sent to.
pub proof fn law_when_a_request_is_near(
    origin: Option<Seq<char>>,
    host: Option<Seq<char>>,
    bound: Seq<char>,
)
    ensures
        local_enough(origin, host, bound) <==> {
            &&& (bound == "127.0.0.1"@ || bound == "localhost"@ || bound == "::1"@ || bound == "[::1]"@)
                ==> (host matches Some(h) ==> host_in(h) == "127.0.0.1"@ || host_in(h) == "localhost"@
                || host_in(h) == "::1"@)
            &&& origin matches Some(o) ==> {
                ||| host_in(o) == "127.0.0.1"@
                ||| host_in(o) == "localhost"@
                ||| host_in(o) == "::1"@
                ||| host_in(o) == bound
                ||| (host matches Some(h) && host_in(h) == host_in(o))
            }
        },
{
}

/// What is sent back starts with its status, names its type and length, carries
/// the cookie where there is one, and closes the connection.
pub proof fn law_how_a_reply_starts(status: Seq<char>, kind: Seq<char>, n: nat, cookie: Seq<char>)
    ensures
        reply_head(status, kind, n, None) == "HTTP/1.1 "@ + status + "\r\nContent-Type: "@ + kind
            + "\r\nContent-Length: "@ + decimal(n) + "\r\nConnection: close\r\n\r\n"@,
        reply_head(status, kind, n, Some(cookie)) == "HTTP/1.1 "@ + status + "\r\nContent-Type: "@
            + kind + "\r\nContent-Length: "@ + decimal(n) + "\r\nSet-Cookie: "@ + cookie
            + "\r\nConnection: close\r\n\r\n"@,
{
    reveal_strlit("\r\n");
    reveal_strlit("Connection: close\r\n\r\n");
    reveal_strlit("\r\nConnection: close\r\n\r\n");
    reveal_strlit("Set-Cookie: ");
    reveal_strlit("\r\nSet-Cookie: ");
    assert("\r\n"@ + "Connection: close\r\n\r\n"@ == "\r\nConnection: close\r\n\r\n"@);
    assert("\r\n"@ + "Set-Cookie: "@ == "\r\nSet-Cookie: "@);
    let head = "HTTP/1.1 "@ + status + "\r\nContent-Type: "@ + kind + "\r\nContent-Length: "@
        + decimal(n);
    assert(head + "\r\n"@ + Seq::<char>::empty() + "Connection: close\r\n\r\n"@ == head + ("\r\n"@
        + "Connection: close\r\n\r\n"@));
    assert(head + "\r\n"@ + ("Set-Cookie: "@ + cookie + "\r\n"@) + "Connection: close\r\n\r\n"@
        == head + ("\r\n"@ + "Set-Cookie: "@) + cookie + ("\r\n"@ + "Connection: close\r\n\r\n"@));
}

/// What each kind of reply is made of.
pub proof fn law_what_replies_are(r: Reply, status: Seq<char>, why: Seq<char>, value: Doc)
    ensures
        brings(r, value) <==> r.status@ == "200 OK"@ && r.content_type@ == "application/json"@
            && r.cookie is None && r.body@ == encode_utf8(json_text(value)),
        reports(r, status, why) <==> r.status@ == status && r.content_type@ == "application/json"@
            && r.cookie is None && r.body@ == encode_utf8(
            json_text(Doc::Object(seq![("error"@, Doc::Text(why))])),
        ),
        forbids(r, why) <==> r.status@ == "403 Forbidden"@ && r.content_type@ == "text/plain"@
            && r.cookie is None && r.body@ == encode_utf8(why),
{
}

} // verus!
