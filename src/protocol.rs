//! The line protocol of the command front-end: replies, commands and the
//! checks that turn a `STREAM` request into a subscription.
use vstd::prelude::*;
use crate::errors::{QuoteError, error_text};
use crate::text::{
    ascii_lower, ascii_upper, chars_of, eq_chars, pieces, push_str, same_items,
    split_pieces, split_words, string_of, to_ascii_lower, to_ascii_upper, trim, trim_chars, trim_end,
    trim_start, words,
};

verus! {

/// The scheme of `s` read as a URL, or `None` where `s` is no URL.
pub uninterp spec fn url_scheme(s: Seq<char>) -> Option<Seq<char>>;

/// Relies on `url::Url::parse` and `Url::scheme`: whether the text parses as a
/// URL, and its scheme, depend on the text alone; the error's text is passed on.
#[verifier::external_body]
fn parse_url_scheme(s: &str) -> (r: Result<String, String>)
    ensures
        r is Ok <==> url_scheme(s@) is Some,
        r matches Ok(x) ==> url_scheme(s@) == Some(x@),
{
    match url::Url::parse(s) {
        Ok(u) => Ok(u.scheme().to_string()),
        Err(e) => Err(e.to_string()),
    }
}

/// A reply of the server to one command line.
#[derive(Clone, Debug)]
pub enum ServerResponse {
    /// The command was carried out.
    Accepted { message: Option<String> },
    /// The command was refused.
    Rejected { message: Option<String> },
}

/// The line that a reply is sent as.
pub open spec fn response_text(r: ServerResponse) -> Seq<char> {
    match r {
        ServerResponse::Accepted { message: None } => "OK"@,
        ServerResponse::Accepted { message: Some(m) } => "OK|"@ + m@,
        ServerResponse::Rejected { message: None } => "ERROR"@,
        ServerResponse::Rejected { message: Some(m) } => "ERROR|"@ + m@,
    }
}

/// The line of a success reply with detail `m` (none where `m` is blank).
pub open spec fn ok_text(m: Seq<char>) -> Seq<char> {
    if trim(m).len() == 0 {
        "OK"@
    } else {
        "OK|"@ + m
    }
}

/// The line of an error reply with detail `m` (none where `m` is blank).
pub open spec fn err_text(m: Seq<char>) -> Seq<char> {
    if trim(m).len() == 0 {
        "ERROR"@
    } else {
        "ERROR|"@ + m
    }
}

fn is_blank(s: &str) -> (r: bool)
    ensures
        r == (trim(s@).len() == 0),
{
    let v = chars_of(s);
    let t = trim_chars(&v);
    t.len() == 0
}

impl ServerResponse {
    /// A success reply.
    pub fn ok(message: &str) -> (r: ServerResponse)
        ensures
            r is Accepted,
            response_text(r) == ok_text(message@),
    {
        if is_blank(message) {
            ServerResponse::Accepted { message: None }
        } else {
            ServerResponse::Accepted { message: Some(message.to_owned()) }
        }
    }

    /// An error reply.
    pub fn err(message: &str) -> (r: ServerResponse)
        ensures
            r is Rejected,
            response_text(r) == err_text(message@),
    {
        if is_blank(message) {
            ServerResponse::Rejected { message: None }
        } else {
            ServerResponse::Rejected { message: Some(message.to_owned()) }
        }
    }

    /// The line sent to the client, without its line break.
    pub fn to_string(&self) -> (r: String)
        ensures
            r@ == response_text(*self),
    {
        let mut v: Vec<char> = Vec::new();
        match self {
            ServerResponse::Accepted { message } => {
                push_str(&mut v, "OK");
                if let Some(m) = message {
                    push_str(&mut v, "|");
                    push_str(&mut v, m.as_str());
                    proof {
                        reveal_strlit("OK");
                        reveal_strlit("|");
                        reveal_strlit("OK|");
                        assert(v@ =~= "OK|"@ + m@);
                    }
                }
            },
            ServerResponse::Rejected { message } => {
                push_str(&mut v, "ERROR");
                if let Some(m) = message {
                    push_str(&mut v, "|");
                    push_str(&mut v, m.as_str());
                    proof {
                        reveal_strlit("ERROR");
                        reveal_strlit("|");
                        reveal_strlit("ERROR|");
                        assert(v@ =~= "ERROR|"@ + m@);
                    }
                }
            },
        }
        proof {
            assert(Seq::<char>::empty() + "OK"@ =~= "OK"@);
            assert(Seq::<char>::empty() + "ERROR"@ =~= "ERROR"@);
        }
        string_of(&v)
    }
}

/// The commands of the front-end.
#[derive(Clone, Copy, Debug, PartialEq, Eq, Structural)]
pub enum Command {
    /// Subscribe to a stream of quotes.
    Stream,
    /// Cancel the subscription of this connection.
    Cancel,
}

/// The command that a token names, letters in either case, blanks around it ignored.
pub open spec fn command_of(s: Seq<char>) -> Option<Command> {
    let t = ascii_lower(trim(s));
    if t == "stream"@ {
        Some(Command::Stream)
    } else if t == "cancel"@ {
        Some(Command::Cancel)
    } else {
        None
    }
}

/// Why a `STREAM` request is refused.
pub enum StreamFault {
    /// Fewer than two arguments.
    Incomplete,
    /// The first argument is no URL.
    BadUrl,
    /// The URL's scheme is not `udp`.
    NotUdp,
    /// No tickers are loaded.
    NoTickers,
    /// A requested ticker is not loaded.
    UnknownTickers,
}

/// A subscription: which client asked, where its quotes go, and which
/// tickers it wants (none listed: all of them).
#[derive(Clone, Debug)]
pub struct ClientSubscription {
    /// The session id.
    pub unique_id: usize,
    /// The address of the client's command connection.
    pub tcp_addr: String,
    /// The URL that datagrams are sent to.
    pub udp_url: String,
    /// The tickers asked for; empty means all.
    pub tickers: Vec<String>,
}

impl ClientSubscription {
    pub fn new(unique_id: usize, tcp_addr: String, udp_url: String, tickers: Vec<String>) -> (r:
        ClientSubscription)
        ensures
            r.unique_id == unique_id,
            r.tcp_addr == tcp_addr,
            r.udp_url == udp_url,
            r.tickers == tickers,
    {
        ClientSubscription { unique_id, tcp_addr, udp_url, tickers }
    }
}

/// The character sequences of a list of strings.
pub open spec fn texts(v: Seq<String>) -> Seq<Seq<char>> {
    v.map_values(|s: String| s@)
}

/// The tickers named by the pieces of a comma-separated list: each piece
/// trimmed and upper-cased, blank pieces left out.
pub open spec fn ticker_items(ps: Seq<Seq<char>>) -> Seq<Seq<char>>
    decreases ps.len(),
{
    if ps.len() == 0 {
        Seq::empty()
    } else {
        let rest = ticker_items(ps.drop_last());
        let t = ascii_upper(trim(ps.last()));
        if t.len() > 0 {
            rest.push(t)
        } else {
            rest
        }
    }
}

/// The tickers that a ticker list such as `AAPL,TSLA` asks for.
pub open spec fn requested_tickers(spec: Seq<char>) -> Seq<Seq<char>> {
    ticker_items(pieces(spec, ','))
}

/// Whether a ticker spec asks for every ticker.
pub open spec fn is_all(spec: Seq<char>) -> bool {
    ascii_upper(spec) == "ALL"@
}

/// Every item of `req` is one of `known`.
pub open spec fn all_known(req: Seq<Seq<char>>, known: Seq<Seq<char>>) -> bool {
    forall|i: int| 0 <= i < req.len() ==> known.contains(#[trigger] req[i])
}

/// Why the arguments of a `STREAM` request are refused, if they are.
pub open spec fn stream_fault(parts: Seq<Seq<char>>, known: Seq<Seq<char>>) -> Option<
    StreamFault,
> {
    scheme_fault(parts, if parts.len() >= 2 { url_scheme(parts[0]) } else { None }, known)
}

/// Why the arguments of a `STREAM` request are refused, if they are, given
/// the scheme of its first argument (`None` where that is no URL).
pub open spec fn scheme_fault(
    parts: Seq<Seq<char>>,
    scheme: Option<Seq<char>>,
    known: Seq<Seq<char>>,
) -> Option<StreamFault> {
    if parts.len() < 2 {
        Some(StreamFault::Incomplete)
    } else if scheme is None {
        Some(StreamFault::BadUrl)
    } else if scheme != Some("udp"@) {
        Some(StreamFault::NotUdp)
    } else if known.len() == 0 {
        Some(StreamFault::NoTickers)
    } else if !is_all(parts[1]) && !all_known(requested_tickers(parts[1]), known) {
        Some(StreamFault::UnknownTickers)
    } else {
        None
    }
}

/// The scheme that a URL parse gave, or `None` where it failed.
pub open spec fn scheme_view(scheme: Result<String, String>) -> Option<Seq<char>> {
    match scheme {
        Ok(x) => Some(x@),
        Err(_) => None,
    }
}

/// The text of the URL parse error, where there is one.
pub open spec fn parse_error_text(scheme: Result<String, String>) -> Seq<char> {
    match scheme {
        Ok(_) => Seq::empty(),
        Err(e) => e@,
    }
}

/// The detail of the error a refused `STREAM` request is answered with.
pub open spec fn fault_message(f: StreamFault, url: Seq<char>, parse_error: Seq<char>) -> Seq<char> {
    match f {
        StreamFault::Incomplete => "команда неполная"@,
        StreamFault::BadUrl => "некорректный udp-адрес '"@ + url + "': "@ + parse_error,
        StreamFault::NotUdp => "поддерживается только UDP"@,
        StreamFault::NoTickers => "отсутствуют тикеры"@,
        StreamFault::UnknownTickers => "некорректные тикеры"@,
    }
}

/// The filter of an accepted `STREAM` request: empty for `ALL`.
pub open spec fn stream_filter(parts: Seq<Seq<char>>) -> Seq<Seq<char>> {
    if is_all(parts[1]) {
        Seq::empty()
    } else {
        requested_tickers(parts[1])
    }
}

/// The error that a refused `STREAM` request is answered with.
pub open spec fn fault_error(f: StreamFault, e: QuoteError, url: Seq<char>) -> bool {
    match f {
        StreamFault::Incomplete => e matches QuoteError::CommandError(m) && m@
            == "команда неполная"@,
        StreamFault::BadUrl => e matches QuoteError::CommandError(m) && m@.len() >= (
        "некорректный udp-адрес '"@ + url + "': "@).len() && m@.subrange(
            0,
            ("некорректный udp-адрес '"@ + url + "': "@).len() as int,
        ) == "некорректный udp-адрес '"@ + url + "': "@,
        StreamFault::NotUdp => e matches QuoteError::CommandError(m) && m@
            == "поддерживается только UDP"@,
        StreamFault::NoTickers => e matches QuoteError::CommandError(m) && m@
            == "отсутствуют тикеры"@,
        StreamFault::UnknownTickers => e matches QuoteError::CommandError(m) && m@
            == "некорректные тикеры"@,
    }
}

fn ticker_list(spec: &Vec<char>) -> (r: Vec<Vec<char>>)
    ensures
        same_items(r@, requested_tickers(spec@)),
{
    let ps = split_pieces(spec, ',');
    let mut r: Vec<Vec<char>> = Vec::new();
    let mut i: usize = 0;
    while i < ps.len()
        invariant
            i <= ps@.len(),
            same_items(ps@, pieces(spec@, ',')),
            same_items(r@, ticker_items(pieces(spec@, ',').subrange(0, i as int))),
        decreases ps@.len() - i,
    {
        let ghost all = pieces(spec@, ',');
        assert(all.subrange(0, i + 1).drop_last() =~= all.subrange(0, i as int));
        let t = trim_chars(&ps[i]);
        let u = to_ascii_upper(&t);
        if u.len() > 0 {
            r.push(u);
        }
        i = i + 1;
    }
    assert(pieces(spec@, ',').subrange(0, ps@.len() as int) =~= pieces(spec@, ','));
    r
}

fn known_texts(known: &Vec<String>) -> (r: Vec<Vec<char>>)
    ensures
        same_items(r@, texts(known@)),
{
    let mut r: Vec<Vec<char>> = Vec::new();
    let mut i: usize = 0;
    while i < known.len()
        invariant
            i <= known@.len(),
            r@.len() == i,
            forall|k: int| 0 <= k < i ==> #[trigger] r@[k]@ == known@[k]@,
        decreases known@.len() - i,
    {
        r.push(chars_of(known[i].as_str()));
        i = i + 1;
    }
    r
}

fn contains_text(known: &Vec<Vec<char>>, t: &Vec<char>) -> (r: bool)
    ensures
        r == exists|k: int| 0 <= k < known@.len() && #[trigger] known@[k]@ == t@,
{
    let mut i: usize = 0;
    while i < known.len()
        invariant
            i <= known@.len(),
            forall|k: int| 0 <= k < i ==> #[trigger] known@[k]@ != t@,
        decreases known@.len() - i,
    {
        if eq_chars(&known[i], t) {
            return true;
        }
        i = i + 1;
    }
    false
}

fn all_in(req: &Vec<Vec<char>>, known: &Vec<Vec<char>>, ghost_known: Ghost<Seq<Seq<char>>>) -> (r:
    bool)
    requires
        same_items(known@, ghost_known@),
    ensures
        r == forall|i: int| 0 <= i < req@.len() ==> ghost_known@.contains(#[trigger] req@[i]@),
{
    let mut i: usize = 0;
    while i < req.len()
        invariant
            i <= req@.len(),
            same_items(known@, ghost_known@),
            forall|k: int| 0 <= k < i ==> ghost_known@.contains(#[trigger] req@[k]@),
        decreases req@.len() - i,
    {
        let found = contains_text(known, &req[i]);
        if !found {
            proof {
                assert forall|k: int| 0 <= k < ghost_known@.len() implies ghost_known@[k]
                    != req@[i as int]@ by {
                    assert(known@[k]@ == ghost_known@[k]);
                }
                assert(!ghost_known@.contains(req@[i as int]@));
            }
            return false;
        }
        proof {
            let k = choose|k: int| 0 <= k < known@.len() && #[trigger] known@[k]@ == req@[i as int]@;
            assert(ghost_known@[k] == req@[i as int]@);
        }
        i = i + 1;
    }
    true
}

fn strings_of(v: &Vec<Vec<char>>) -> (r: Vec<String>)
    ensures
        r@.len() == v@.len(),
        forall|k: int| 0 <= k < v@.len() ==> #[trigger] r@[k]@ == v@[k]@,
{
    let mut r: Vec<String> = Vec::new();
    let mut i: usize = 0;
    while i < v.len()
        invariant
            i <= v@.len(),
            r@.len() == i,
            forall|k: int| 0 <= k < i ==> #[trigger] r@[k]@ == v@[k]@,
        decreases v@.len() - i,
    {
        r.push(string_of(&v[i]));
        i = i + 1;
    }
    r
}

impl Command {
    /// Reads a command name, letters in either case.
    pub fn from_str(s: &str) -> (r: Result<Command, QuoteError>)
        ensures
            command_of(s@) == Some(Command::Stream) ==> r == Ok::<Command, QuoteError>(
                Command::Stream,
            ),
            command_of(s@) == Some(Command::Cancel) ==> r == Ok::<Command, QuoteError>(
                Command::Cancel,
            ),
            command_of(s@) is None ==> (r matches Err(QuoteError::ValueError(m)) && m@
                == "Некорректное значение Command: "@ + s@),
    {
        let v = chars_of(s);
        let t = trim_chars(&v);
        let l = to_ascii_lower(&t);
        if eq_chars(&l, &chars_of("stream")) {
            Ok(Command::Stream)
        } else if eq_chars(&l, &chars_of("cancel")) {
            Ok(Command::Cancel)
        } else {
            let mut m = chars_of("Некорректное значение Command: ");
            push_str(&mut m, s);
            let text = string_of(&m);
            Err(QuoteError::value_err(text.as_str()))
        }
    }

    /// Builds the subscription that a `STREAM` request with arguments
    /// `cmd_parts` asks for, checked against the loaded tickers `known`.
    pub fn make_client(
        &self,
        unique_id: usize,
        tcp_addr: &str,
        cmd_parts: &Vec<String>,
        known: &Vec<String>,
    ) -> (r: Result<ClientSubscription, QuoteError>)
        ensures
            *self == Command::Cancel ==> r matches Err(QuoteError::ValueError(_)),
            *self == Command::Stream ==> (r is Ok <==> stream_fault(
                texts(cmd_parts@),
                texts(known@),
            ) is None),
            *self == Command::Stream ==> (r matches Ok(sub) ==> sub.unique_id == unique_id
                && sub.tcp_addr@ == tcp_addr@ && sub.udp_url@ == cmd_parts@[0]@ && texts(
                sub.tickers@,
            ) == stream_filter(texts(cmd_parts@))),
            *self == Command::Stream ==> (r matches Err(e) ==> fault_error(
                stream_fault(texts(cmd_parts@), texts(known@))->0,
                e,
                cmd_parts@[0]@,
            )),
    {
        if *self == Command::Cancel {
            return Err(QuoteError::value_err("Данный метод не поддерживает этот вариант перечисления"));
        }
        let scheme = if cmd_parts.len() < 2 {
            Err(String::new())
        } else {
            parse_url_scheme(cmd_parts[0].as_str())
        };
        proof {
            if cmd_parts@.len() >= 2 {
                assert(texts(cmd_parts@)[0] == cmd_parts@[0]@);
            }
        }
        let r = stream_request(unique_id, tcp_addr, cmd_parts, &scheme, known);
        proof {
            reveal_strlit("некорректный udp-адрес '");
            reveal_strlit("': ");
            let url = cmd_parts@[0]@;
            let pre = "некорректный udp-адрес '"@ + url + "': "@;
            let full = pre + parse_error_text(scheme);
            assert(full.subrange(0, pre.len() as int) =~= pre);
        }
        r
    }
}

/// Checks the arguments of a `STREAM` request, given the scheme that parsing
/// its first argument as a URL gave (or that parse's error), and builds the
/// subscription it asks for.
pub fn stream_request(
    unique_id: usize,
    tcp_addr: &str,
    cmd_parts: &Vec<String>,
    scheme: &Result<String, String>,
    known: &Vec<String>,
) -> (r: Result<ClientSubscription, QuoteError>)
    ensures
        r is Ok <==> scheme_fault(texts(cmd_parts@), scheme_view(*scheme), texts(known@)) is None,
        r matches Ok(sub) ==> sub.unique_id == unique_id && sub.tcp_addr@ == tcp_addr@
            && sub.udp_url@ == cmd_parts@[0]@ && texts(sub.tickers@) == stream_filter(
            texts(cmd_parts@),
        ),
        r matches Err(e) ==> e matches QuoteError::CommandError(m) && m@ == fault_message(
            scheme_fault(texts(cmd_parts@), scheme_view(*scheme), texts(known@))->0,
            cmd_parts@[0]@,
            parse_error_text(*scheme),
        ),
{
    let ghost parts = texts(cmd_parts@);
    let ghost known_t = texts(known@);
    if cmd_parts.len() < 2 {
        return Err(QuoteError::command_err("команда неполная"));
    }
    assert(parts[0] == cmd_parts@[0]@);
    assert(parts[1] == cmd_parts@[1]@);
    let url = cmd_parts[0].as_str();
    match scheme {
        Err(e) => {
            let mut m = chars_of("некорректный udp-адрес '");
            push_str(&mut m, url);
            push_str(&mut m, "': ");
            push_str(&mut m, e.as_str());
            let text = string_of(&m);
            return Err(QuoteError::command_err(text.as_str()));
        },
        Ok(sch) => {
            let sv = chars_of(sch.as_str());
            if !eq_chars(&sv, &chars_of("udp")) {
                return Err(QuoteError::command_err("поддерживается только UDP"));
            }
        },
    }
    if known.len() == 0 {
        return Err(QuoteError::command_err("отсутствуют тикеры"));
    }
    let spec = chars_of(cmd_parts[1].as_str());
    let up = to_ascii_upper(&spec);
    let tickers: Vec<String>;
    if eq_chars(&up, &chars_of("ALL")) {
        tickers = Vec::new();
        assert(texts(tickers@) =~= Seq::<Seq<char>>::empty());
    } else {
        let req = ticker_list(&spec);
        let kt = known_texts(known);
        proof {
            assert(texts(known@).len() == kt@.len());
        }
        if !all_in(&req, &kt, Ghost(known_t)) {
            proof {
                let req_t = requested_tickers(parts[1]);
                assert(!all_known(req_t, known_t)) by {
                    let i = choose|i: int|
                        0 <= i < req@.len() && !known_t.contains(#[trigger] req@[i]@);
                    assert(req_t[i] == req@[i]@);
                }
            }
            return Err(QuoteError::command_err("некорректные тикеры"));
        }
        proof {
            let req_t = requested_tickers(parts[1]);
            assert forall|i: int| 0 <= i < req_t.len() implies known_t.contains(
                #[trigger] req_t[i],
            ) by {
                assert(req@[i]@ == req_t[i]);
            }
        }
        tickers = strings_of(&req);
        assert(texts(tickers@) =~= requested_tickers(parts[1]));
    }
    let udp_url = cmd_parts[0].clone();
    Ok(ClientSubscription::new(unique_id, tcp_addr.to_owned(), udp_url, tickers))
}


/// What the front-end does with one line read from a client.
#[derive(Clone, Debug)]
pub enum LineOutcome {
    /// The line holds nothing but blanks.
    Empty,
    /// The first word names no command.
    Invalid,
    /// A `STREAM` request whose arguments were refused.
    Refused(QuoteError),
    /// A `STREAM` request that was accepted.
    Subscribe(ClientSubscription),
    /// A `CANCEL` request.
    Cancel,
}

/// The arguments of a command line: its words after the first.
pub open spec fn line_args(line: Seq<char>) -> Seq<Seq<char>> {
    words(line).drop_first()
}

/// Reads one command line of session `unique_id`, checking a `STREAM`
/// request against the loaded tickers `known`.
pub fn interpret_line(line: &str, unique_id: usize, tcp_addr: &str, known: &Vec<String>) -> (r:
    LineOutcome)
    ensures
        words(line@).len() == 0 <==> r is Empty,
        words(line@).len() > 0 ==> (command_of(words(line@)[0]) is None <==> r is Invalid),
        words(line@).len() > 0 ==> (command_of(words(line@)[0]) == Some(Command::Cancel) <==> r is Cancel),
        words(line@).len() > 0 && command_of(words(line@)[0]) == Some(Command::Stream) ==> (r is Subscribe
            <==> stream_fault(line_args(line@), texts(known@)) is None),
        r matches LineOutcome::Subscribe(sub) ==> sub.unique_id == unique_id && sub.tcp_addr@
            == tcp_addr@ && sub.udp_url@ == line_args(line@)[0] && texts(sub.tickers@)
            == stream_filter(line_args(line@)),
        r matches LineOutcome::Refused(e) ==> command_of(words(line@)[0]) == Some(Command::Stream)
            && fault_error(
            stream_fault(line_args(line@), texts(known@))->0,
            e,
            line_args(line@)[0],
        ),
{
    let cv = chars_of(line);
    let ws = split_words(&cv);
    if ws.len() == 0 {
        return LineOutcome::Empty;
    }
    let name = string_of(&ws[0]);
    let cmd = match Command::from_str(name.as_str()) {
        Ok(c) => c,
        Err(_) => {
            return LineOutcome::Invalid;
        },
    };
    if cmd == Command::Cancel {
        return LineOutcome::Cancel;
    }
    let mut parts: Vec<String> = Vec::new();
    let mut i: usize = 1;
    while i < ws.len()
        invariant
            1 <= i <= ws@.len(),
            same_items(ws@, words(line@)),
            parts@.len() == i - 1,
            forall|k: int| 0 <= k < i - 1 ==> #[trigger] parts@[k]@ == ws@[k + 1]@,
        decreases ws@.len() - i,
    {
        parts.push(string_of(&ws[i]));
        i = i + 1;
    }
    assert(texts(parts@) =~= line_args(line@));
    match cmd.make_client(unique_id, tcp_addr, &parts, known) {
        Ok(sub) => LineOutcome::Subscribe(sub),
        Err(e) => LineOutcome::Refused(e),
    }
}

/// The line that answers an outcome.
pub open spec fn reply_text(o: LineOutcome) -> Seq<char> {
    match o {
        LineOutcome::Empty => "ERROR|empty line"@,
        LineOutcome::Invalid => "ERROR|invalid command"@,
        LineOutcome::Refused(e) => err_text(error_text(e)),
        LineOutcome::Subscribe(_) => "OK|stream started"@,
        LineOutcome::Cancel => "OK|canceled"@,
    }
}

/// The reply that the front-end sends for an outcome.
pub fn reply_for(o: &LineOutcome) -> (r: ServerResponse)
    ensures
        response_text(r) == reply_text(*o),
        r is Accepted <==> (o is Subscribe || o is Cancel),
{
    proof {
        reveal_strlit("empty line");
        reveal_strlit("invalid command");
        reveal_strlit("stream started");
        reveal_strlit("canceled");
        reveal_strlit("ERROR|empty line");
        reveal_strlit("ERROR|invalid command");
        reveal_strlit("OK|stream started");
        reveal_strlit("OK|canceled");
        reveal_strlit("OK|");
        reveal_strlit("ERROR|");
    }
    match o {
        LineOutcome::Empty => {
            let r = ServerResponse::err("empty line");
            assert("ERROR|"@ + "empty line"@ =~= "ERROR|empty line"@);
            r
        },
        LineOutcome::Invalid => {
            let r = ServerResponse::err("invalid command");
            assert("ERROR|"@ + "invalid command"@ =~= "ERROR|invalid command"@);
            r
        },
        LineOutcome::Refused(e) => {
            let t = e.to_string();
            ServerResponse::err(t.as_str())
        },
        LineOutcome::Subscribe(_) => {
            let r = ServerResponse::ok("stream started");
            assert("OK|"@ + "stream started"@ =~= "OK|stream started"@);
            r
        },
        LineOutcome::Cancel => {
            let r = ServerResponse::ok("canceled");
            assert("OK|"@ + "canceled"@ =~= "OK|canceled"@);
            r
        },
    }
}

/// A `STREAM` request with a `udp` URL whose ticker list names a ticker
/// that is not loaded is refused as a whole, and answered
/// `ERROR|некорректные тикеры`.
pub proof fn lemma_unknown_ticker_refused(
    parts: Seq<Seq<char>>,
    known: Seq<Seq<char>>,
    t: Seq<char>,
)
    requires
        parts.len() >= 2,
        known.len() > 0,
        !is_all(parts[1]),
        requested_tickers(parts[1]).contains(t),
        !known.contains(t),
    ensures
        scheme_fault(parts, Some("udp"@), known) == Some(StreamFault::UnknownTickers),
        err_text(fault_message(StreamFault::UnknownTickers, parts[0], Seq::empty()))
            == "ERROR|некорректные тикеры"@,
{
    reveal_strlit("некорректные тикеры");
    reveal_strlit("ERROR|некорректные тикеры");
    reveal_strlit("ERROR|");
    let req = requested_tickers(parts[1]);
    let i = choose|i: int| 0 <= i < req.len() && req[i] == t;
    assert(!all_known(req, known)) by {
        assert(!known.contains(req[i]));
    }
    let m = "некорректные тикеры"@;
    assert(trim_start(m) == m);
    assert(trim_end(m) == m);
    assert("ERROR|"@ + m =~= "ERROR|некорректные тикеры"@);
}

/// A `STREAM` request whose URL has a scheme other than `udp` is refused,
/// and answered `ERROR|поддерживается только UDP`.
pub proof fn lemma_other_scheme_refused(
    parts: Seq<Seq<char>>,
    scheme: Seq<char>,
    known: Seq<Seq<char>>,
)
    requires
        parts.len() >= 2,
        scheme != "udp"@,
    ensures
        scheme_fault(parts, Some(scheme), known) == Some(StreamFault::NotUdp),
        err_text(fault_message(StreamFault::NotUdp, parts[0], Seq::empty()))
            == "ERROR|поддерживается только UDP"@,
{
    reveal_strlit("поддерживается только UDP");
    reveal_strlit("ERROR|поддерживается только UDP");
    reveal_strlit("ERROR|");
    let m = "поддерживается только UDP"@;
    assert(trim_start(m) == m);
    assert(trim_end(m) == m);
    assert("ERROR|"@ + m =~= "ERROR|поддерживается только UDP"@);
}

} // verus!
