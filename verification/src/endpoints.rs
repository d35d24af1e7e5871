//! Parsing of the comma-separated broker endpoint list, `host:port[,host:port...]`.
//!
//! The accepted language and the value of every accepted input are fixed by
//! [`spec_parse_endpoints`]; the executable parser is proved to return exactly
//! that. Whitespace at the ends of each piece is ignored, as is one leading
//! plus sign on a port. An endpoint without a `:port`, a port that is not a number of at most
//! 65535, and an empty input are rejected, each with its own error.
use vstd::prelude::*;

verus! {

/// A decimal digit character.
pub open spec fn is_digit(c: char) -> bool {
    '0' <= c && c <= '9'
}

/// The numeric value of a digit character.
pub open spec fn digit_val(c: char) -> nat
    recommends
        is_digit(c),
{
    ((c as int) - 48) as nat
}

/// Every character of `s` is a decimal digit.
pub open spec fn all_digits(s: Seq<char>) -> bool {
    forall|i: int| 0 <= i < s.len() ==> is_digit(s[i])
}

/// The number written in decimal by `s`, most significant digit first.
pub open spec fn dec_value(s: Seq<char>) -> nat
    decreases s.len(),
{
    if s.len() == 0 {
        0
    } else {
        dec_value(s.drop_last()) * 10 + digit_val(s.last())
    }
}

/// An ASCII whitespace character, as tolerated at the ends of each piece.
pub open spec fn is_ws(c: char) -> bool {
    c == ' ' || c == '\t' || c == '\n' || c == '\u{c}' || c == '\r'
}

/// `s` without its leading and trailing ASCII whitespace.
pub open spec fn trim_ws(s: Seq<char>) -> Seq<char>
    decreases s.len(),
{
    if s.len() > 0 && is_ws(s.first()) {
        trim_ws(s.drop_first())
    } else if s.len() > 0 && is_ws(s.last()) {
        trim_ws(s.drop_last())
    } else {
        s
    }
}

/// The digit part of a port text: one optional leading plus sign is allowed
/// and carries no value.
pub open spec fn port_digits_of(s: Seq<char>) -> Seq<char> {
    if s.len() > 0 && s[0] == '+' {
        s.drop_first()
    } else {
        s
    }
}

/// A well-formed port text: an optional plus sign, then at least one decimal
/// digit, writing a value of at most 65535.
pub open spec fn valid_port(s: Seq<char>) -> bool {
    port_digits_of(s).len() >= 1 && all_digits(port_digits_of(s)) && dec_value(port_digits_of(s))
        <= 65535
}

/// The value a well-formed port text writes.
pub open spec fn port_value(s: Seq<char>) -> nat {
    dec_value(port_digits_of(s))
}

/// `j` is the first position of `c` in `s`.
pub open spec fn is_first_at(s: Seq<char>, c: char, j: int) -> bool {
    0 <= j < s.len() && s[j] == c && (forall|i: int| 0 <= i < j ==> s[i] != c)
}

/// `s` contains the character `c`.
pub open spec fn contains_char(s: Seq<char>, c: char) -> bool {
    exists|j: int| is_first_at(s, c, j)
}

/// The first position of `c` in `s`.
pub open spec fn first_at(s: Seq<char>, c: char) -> int {
    choose|j: int| is_first_at(s, c, j)
}

/// First positions are unique, so a found one is the `first_at` position.
proof fn lemma_first_at(s: Seq<char>, c: char, j: int)
    requires
        is_first_at(s, c, j),
    ensures
        contains_char(s, c),
        first_at(s, c) == j,
{
    let j2 = first_at(s, c);
    assert(is_first_at(s, c, j2));
    if j < j2 {
        assert(s[j] == c);
        assert(false);
    }
    if j2 < j {
        assert(s[j2] == c);
        assert(false);
    }
}

/// The pieces of `s` between its commas, in order; a piece may be empty.
pub open spec fn split_commas(s: Seq<char>) -> Seq<Seq<char>>
    decreases s.len(),
{
    if contains_char(s, ',') {
        seq![s.take(first_at(s, ','))] + split_commas(s.skip(first_at(s, ',') + 1))
    } else {
        seq![s]
    }
}

/// Why an endpoint list was rejected.
#[derive(Debug, Clone, Copy, PartialEq, Eq, Structural)]
pub enum EndpointError {
    /// The input was empty.
    EmptyList,
    /// An endpoint had no `:port` part.
    MissingPort,
    /// A port was empty, not a number, or above 65535.
    InvalidPort,
}

/// The host part of a trimmed piece: everything before its first colon.
pub open spec fn piece_host(p: Seq<char>) -> Seq<char> {
    p.take(first_at(p, ':'))
}

/// The port text of a trimmed piece: everything after its first colon.
pub open spec fn piece_port(p: Seq<char>) -> Seq<char> {
    p.skip(first_at(p, ':') + 1)
}

/// What one piece parses to: a host and a port, or the error that rejects it.
/// Whitespace at the piece's ends is ignored.
pub open spec fn spec_parse_piece(p: Seq<char>) -> Result<(Seq<char>, nat), EndpointError> {
    let t = trim_ws(p);
    if !contains_char(t, ':') {
        Err(EndpointError::MissingPort)
    } else if !valid_port(piece_port(t)) {
        Err(EndpointError::InvalidPort)
    } else {
        Ok((piece_host(t), port_value(piece_port(t))))
    }
}

/// Trimming is idempotent: a trimmed piece trims to itself.
proof fn lemma_trim_ws_idempotent(p: Seq<char>)
    ensures
        trim_ws(trim_ws(p)) == trim_ws(p),
    decreases p.len(),
{
    if p.len() > 0 && is_ws(p.first()) {
        lemma_trim_ws_idempotent(p.drop_first());
    } else if p.len() > 0 && is_ws(p.last()) {
        lemma_trim_ws_idempotent(p.drop_last());
    }
}

/// Whitespace at a piece's ends never changes what it parses to: a piece and
/// its trimmed form parse alike.
pub proof fn lemma_piece_whitespace_insensitive(p: Seq<char>)
    ensures
        spec_parse_piece(trim_ws(p)) == spec_parse_piece(p),
{
    lemma_trim_ws_idempotent(p);
}

/// What a piece list parses to: every piece in order, or the error of the
/// first piece that is rejected.
pub open spec fn spec_parse_pieces(ps: Seq<Seq<char>>) -> Result<
    Seq<(Seq<char>, nat)>,
    EndpointError,
>
    decreases ps.len(),
{
    if ps.len() == 0 {
        Ok(Seq::empty())
    } else {
        match spec_parse_piece(ps[0]) {
            Err(e) => Err(e),
            Ok(ep) => match spec_parse_pieces(ps.skip(1)) {
                Err(e) => Err(e),
                Ok(rest) => Ok(seq![ep] + rest),
            },
        }
    }
}

/// What an endpoint list parses to: the empty input is rejected, otherwise
/// the comma-separated pieces are parsed in order.
pub open spec fn spec_parse_endpoints(s: Seq<char>) -> Result<
    Seq<(Seq<char>, nat)>,
    EndpointError,
> {
    if s.len() == 0 {
        Err(EndpointError::EmptyList)
    } else {
        spec_parse_pieces(split_commas(s))
    }
}

/// One broker endpoint.
#[derive(Debug, Clone)]
pub struct Endpoint {
    pub host: String,
    pub port: u16,
}

/// The value an endpoint denotes.
pub open spec fn ep_view(e: Endpoint) -> (Seq<char>, nat) {
    (e.host@, e.port as nat)
}

/// The values a list of endpoints denotes.
pub open spec fn eps_view(v: Seq<Endpoint>) -> Seq<(Seq<char>, nat)> {
    v.map_values(|e: Endpoint| ep_view(e))
}

/// Unfolds [`spec_parse_pieces`] on a single piece.
proof fn lemma_parse_pieces_singleton(p: Seq<char>)
    ensures
        spec_parse_pieces(seq![p]) == (match spec_parse_piece(p) {
            Err(e) => Err::<Seq<(Seq<char>, nat)>, EndpointError>(e),
            Ok(ep) => Ok(seq![ep]),
        }),
{
    assert(seq![p][0] == p);
    assert(seq![p].skip(1) =~= Seq::<Seq<char>>::empty());
    assert(spec_parse_pieces(Seq::<Seq<char>>::empty()) == Ok::<Seq<(Seq<char>, nat)>, EndpointError>(
        Seq::<(Seq<char>, nat)>::empty(),
    ));
    match spec_parse_piece(p) {
        Err(e) => {},
        Ok(ep) => {
            assert(seq![ep] + Seq::<(Seq<char>, nat)>::empty() =~= seq![ep]);
        },
    }
}

/// Unfolds [`spec_parse_pieces`] on a first piece and the rest.
proof fn lemma_parse_pieces_cons(p: Seq<char>, ps: Seq<Seq<char>>)
    ensures
        spec_parse_pieces(seq![p] + ps) == (match spec_parse_piece(p) {
            Err(e) => Err::<Seq<(Seq<char>, nat)>, EndpointError>(e),
            Ok(ep) => match spec_parse_pieces(ps) {
                Err(e) => Err(e),
                Ok(v) => Ok(seq![ep] + v),
            },
        }),
{
    assert((seq![p] + ps)[0] == p);
    assert((seq![p] + ps).skip(1) =~= ps);
}

/// Characterises trimming: removing whitespace ends leaves exactly the
/// subrange between the first and the last non-whitespace character.
proof fn lemma_trim_ws(p: Seq<char>, i: int, j: int)
    requires
        0 <= i <= j <= p.len(),
        forall|k: int| 0 <= k < i ==> is_ws(p[k]),
        forall|k: int| j <= k < p.len() ==> is_ws(p[k]),
        i == j || (!is_ws(p[i]) && !is_ws(p[j - 1])),
    ensures
        trim_ws(p) == p.subrange(i, j),
    decreases p.len(),
{
    if p.len() == 0 {
        assert(p.subrange(i, j) =~= p);
    } else if is_ws(p.first()) {
        let q = p.drop_first();
        if i == j {
            assert forall|k: int| 0 <= k < q.len() implies is_ws(q[k]) by {
                assert(q[k] == p[k + 1]);
            }
            lemma_trim_ws(q, 0, 0);
            assert(q.subrange(0, 0) =~= p.subrange(i, j));
        } else {
            assert(i >= 1);
            assert forall|k: int| 0 <= k < i - 1 implies is_ws(q[k]) by {
                assert(q[k] == p[k + 1]);
            }
            assert forall|k: int| j - 1 <= k < q.len() implies is_ws(q[k]) by {
                assert(q[k] == p[k + 1]);
            }
            assert(q[i - 1] == p[i]);
            assert(q[j - 2] == p[j - 1]);
            lemma_trim_ws(q, i - 1, j - 1);
            assert(q.subrange(i - 1, j - 1) =~= p.subrange(i, j));
        }
    } else if is_ws(p.last()) {
        let q = p.drop_last();
        if i == j {
            assert forall|k: int| 0 <= k < q.len() implies is_ws(q[k]) by {
                assert(k < i || k >= j);
            }
            lemma_trim_ws(q, 0, 0);
            assert(q.subrange(0, 0) =~= p.subrange(i, j));
        } else {
            assert(j - 1 != p.len() - 1);
            lemma_trim_ws(q, i, j);
            assert(q.subrange(i, j) =~= p.subrange(i, j));
        }
    } else {
        assert(i == 0) by {
            if i > 0 {
                assert(is_ws(p[0]));
            }
        }
        assert(j == p.len()) by {
            if j < p.len() {
                assert(is_ws(p[p.len() - 1]));
            }
        }
        assert(p.subrange(0, p.len() as int) =~= p);
    }
}

/// A prefix of a digit string writes a number no larger than the whole.
proof fn lemma_dec_value_prefix(s: Seq<char>, i: int)
    requires
        0 <= i <= s.len(),
        all_digits(s),
    ensures
        dec_value(s.take(i)) <= dec_value(s),
    decreases s.len() - i,
{
    if i < s.len() {
        assert(s.take(i + 1).drop_last() =~= s.take(i));
        assert(s.take(i + 1).last() == s[i]);
        assert(dec_value(s.take(i + 1)) == dec_value(s.take(i)) * 10 + digit_val(s[i]));
        assert(dec_value(s.take(i)) <= dec_value(s.take(i)) * 10);
        lemma_dec_value_prefix(s, i + 1);
    } else {
        assert(s.take(i) =~= s);
    }
}

/// Tests a character for ASCII whitespace.
fn is_ws_char(ch: char) -> (b: bool)
    ensures
        b == is_ws(ch),
{
    ch == ' ' || ch == '\t' || ch == '\n' || ch == '\u{c}' || ch == '\r'
}

/// Parses the piece `s[start..end]` as one endpoint, ignoring whitespace at
/// the piece's ends.
#[verifier::loop_isolation(false)]
#[verifier::rlimit(60)]
fn parse_piece(s: &str, start: usize, end: usize) -> (r: Result<Endpoint, EndpointError>)
    requires
        start <= end <= s@.len(),
    ensures
        r is Ok <==> spec_parse_piece(s@.subrange(start as int, end as int)) is Ok,
        r is Ok ==> ep_view(r->Ok_0) == spec_parse_piece(s@.subrange(start as int, end as int))->Ok_0,
        r is Err ==> r->Err_0 == spec_parse_piece(s@.subrange(start as int, end as int))->Err_0,
{
    let ghost piece = s@.subrange(start as int, end as int);
    // Trim whitespace from both ends of the piece.
    let mut ts: usize = start;
    let mut te: usize = end;
    while ts < te && is_ws_char(s.get_char(ts))
        invariant
            start <= ts <= te,
            forall|k: int| start <= k < ts ==> is_ws(s@[k]),
        decreases te - ts,
    {
        ts = ts + 1;
    }
    while te > ts && is_ws_char(s.get_char(te - 1))
        invariant
            ts <= te <= end,
            forall|k: int| te <= k < end ==> is_ws(s@[k]),
        decreases te,
    {
        te = te - 1;
    }
    let ghost tpiece = s@.subrange(ts as int, te as int);
    proof {
        assert forall|k: int| 0 <= k < ts - start implies is_ws(piece[k]) by {
            assert(piece[k] == s@[start + k]);
        }
        assert forall|k: int| te - start <= k < piece.len() implies is_ws(piece[k]) by {
            assert(piece[k] == s@[start + k]);
        }
        if ts < te {
            assert(piece[ts - start] == s@[ts as int]);
            assert(piece[te - start - 1] == s@[te - 1]);
        }
        lemma_trim_ws(piece, ts - start, te - start);
        assert(piece.subrange(ts - start, te - start) =~= tpiece);
        assert(trim_ws(piece) == tpiece);
    }
    // Find the first colon of the trimmed piece.
    let mut c: usize = ts;
    while c < te && s.get_char(c) != ':'
        invariant
            ts <= c <= te,
            forall|k: int| ts <= k < c ==> s@[k] != ':',
        decreases te - c,
    {
        c = c + 1;
    }
    if c == te {
        proof {
            assert forall|j: int| !is_first_at(tpiece, ':', j) by {
                if 0 <= j < tpiece.len() {
                    assert(tpiece[j] == s@[ts + j]);
                }
            }
        }
        return Err(EndpointError::MissingPort);
    }
    let ghost j = c - ts;
    proof {
        assert(tpiece[j] == s@[c as int]);
        assert forall|k: int| 0 <= k < j implies tpiece[k] != ':' by {
            assert(tpiece[k] == s@[ts + k]);
        }
        lemma_first_at(tpiece, ':', j);
        assert(piece_port(tpiece) =~= s@.subrange(c + 1, te as int));
        assert(piece_host(tpiece) =~= s@.subrange(ts as int, c as int));
    }
    let ghost port_text = s@.subrange(c + 1, te as int);
    proof {
        assert(piece_port(tpiece) == port_text);
    }
    // An optional plus sign carries no value.
    let pstart: usize = if c + 1 < te && s.get_char(c + 1) == '+' {
        c + 2
    } else {
        c + 1
    };
    let ghost port_digits = s@.subrange(pstart as int, te as int);
    proof {
        if c + 1 < te && s@[c + 1] == '+' {
            assert(port_text[0] == s@[c + 1]);
            assert(port_text.drop_first() =~= s@.subrange(c + 2, te as int));
        } else if c + 1 < te {
            assert(port_text[0] == s@[c + 1]);
        }
        assert(port_digits_of(port_text) == port_digits);
    }
    if pstart == te {
        proof {
            assert(port_digits.len() == 0);
            assert(!valid_port(port_text));
        }
        return Err(EndpointError::InvalidPort);
    }
    let mut acc: u32 = 0;
    let mut i: usize = pstart;
    while i < te
        invariant
            pstart <= i <= te <= s@.len(),
            acc <= 65535,
            all_digits(s@.subrange(pstart as int, i as int)),
            acc == dec_value(s@.subrange(pstart as int, i as int)),
        decreases te - i,
    {
        let ch = s.get_char(i);
        if ch < '0' || ch > '9' {
            proof {
                assert(port_digits[i - pstart] == s@[i as int]);
                assert(!is_digit(port_digits[i - pstart]));
                assert(!all_digits(port_digits));
                assert(!valid_port(port_text));
            }
            return Err(EndpointError::InvalidPort);
        }
        let d: u32 = (ch as u32) - 48;
        let acc2: u32 = acc * 10 + d;
        proof {
            assert(s@.subrange(pstart as int, i + 1).drop_last() =~= s@.subrange(
                pstart as int,
                i as int,
            ));
            assert(s@.subrange(pstart as int, i + 1).last() == s@[i as int]);
        }
        if acc2 > 65535 {
            proof {
                if valid_port(port_text) {
                    assert(port_digits.take(i + 1 - pstart) =~= s@.subrange(pstart as int, i + 1));
                    lemma_dec_value_prefix(port_digits, i + 1 - pstart);
                    assert(false);
                }
            }
            return Err(EndpointError::InvalidPort);
        }
        acc = acc2;
        i = i + 1;
    }
    proof {
        assert(port_digits =~= s@.subrange(pstart as int, te as int));
        assert(valid_port(port_text));
    }
    let host = String::from_str(s.substring_char(ts, c));
    Ok(Endpoint { host, port: acc as u16 })
}

/// What remains to be parsed, combined with what is already parsed.
spec fn combine(done: Seq<(Seq<char>, nat)>, rest: Seq<char>) -> Result<
    Seq<(Seq<char>, nat)>,
    EndpointError,
> {
    match spec_parse_pieces(split_commas(rest)) {
        Ok(v) => Ok(done + v),
        Err(e) => Err(e),
    }
}

/// Parses a comma-separated `host:port` list into endpoints.
///
/// Returns exactly what [`spec_parse_endpoints`] assigns to the input: the
/// empty input and every malformed piece are rejected, and on success the
/// endpoints carry the written hosts and ports in order.
#[verifier::loop_isolation(false)]
pub fn parse_endpoints(s: &str) -> (r: Result<Vec<Endpoint>, EndpointError>)
    ensures
        r is Ok <==> spec_parse_endpoints(s@) is Ok,
        r is Ok ==> eps_view(r->Ok_0@) == spec_parse_endpoints(s@)->Ok_0,
        r is Err ==> r->Err_0 == spec_parse_endpoints(s@)->Err_0,
{
    let n = s.unicode_len();
    if n == 0 {
        return Err(EndpointError::EmptyList);
    }
    let mut out: Vec<Endpoint> = Vec::new();
    let mut start: usize = 0;
    proof {
        assert(s@.skip(0) =~= s@);
        assert(eps_view(out@) =~= Seq::<(Seq<char>, nat)>::empty());
        match spec_parse_pieces(split_commas(s@)) {
            Err(e) => {},
            Ok(v) => {
                assert(Seq::<(Seq<char>, nat)>::empty() + v =~= v);
            },
        }
    }
    loop
        invariant
            n == s@.len(),
            1 <= n,
            start <= n,
            combine(eps_view(out@), s@.skip(start as int)) == spec_parse_endpoints(s@),
        decreases n - start,
    {
        let ghost rest = s@.skip(start as int);
        // Find the end of the current piece.
        let mut end: usize = start;
        while end < n && s.get_char(end) != ','
            invariant
                start <= end <= n == s@.len(),
                forall|k: int| start <= k < end ==> s@[k] != ',',
            decreases n - end,
        {
            end = end + 1;
        }
        let ghost piece = s@.subrange(start as int, end as int);
        proof {
            if end < n {
                assert(rest[end - start] == s@[end as int]);
                assert forall|k: int| 0 <= k < end - start implies rest[k] != ',' by {
                    assert(rest[k] == s@[start + k]);
                }
                lemma_first_at(rest, ',', end - start);
                assert(rest.take(end - start) =~= piece);
                assert(rest.skip(end - start + 1) =~= s@.skip(end + 1));
                assert(split_commas(rest) == seq![piece] + split_commas(s@.skip(end + 1)));
            } else {
                assert forall|j: int| !is_first_at(rest, ',', j) by {
                    if 0 <= j < rest.len() {
                        assert(rest[j] == s@[start + j]);
                    }
                }
                assert(rest.take(rest.len() as int) =~= rest);
                assert(rest =~= piece);
                assert(split_commas(rest) == seq![piece]);
            }
            assert(split_commas(rest)[0] == piece);
            assert(split_commas(rest).len() >= 1);
        }
        match parse_piece(s, start, end) {
            Err(e) => {
                return Err(e);
            },
            Ok(ep) => {
                let ghost done = eps_view(out@);
                let ghost epv = ep_view(ep);
                out.push(ep);
                proof {
                    assert(eps_view(out@) =~= done.push(epv));
                }
                if end == n {
                    proof {
                        lemma_parse_pieces_singleton(piece);
                        assert(done + seq![epv] =~= eps_view(out@));
                    }
                    return Ok(out);
                }
                proof {
                    let tail = split_commas(s@.skip(end + 1));
                    lemma_parse_pieces_cons(piece, tail);
                    match spec_parse_pieces(tail) {
                        Err(e) => {},
                        Ok(v) => {
                            assert(done + (seq![epv] + v) =~= done.push(epv) + v);
                        },
                    }
                }
                start = end + 1;
            },
        }
    }
}

} // verus!
