//! The client's command-line logic: port checks, the URL it listens on, the
//! command it sends, and the ticker list it reads.
use vstd::prelude::*;
use crate::protocol::{
    Command, all_known, command_of, line_args, requested_tickers, stream_fault, stream_filter,
    texts, ticker_items, url_scheme,
};
use crate::text::{
    ascii_lower, ascii_upper, chars_of, decimal, is_space_char, joined, lemma_scan_blank,
    lemma_joined_no_blank, lemma_pieces_of_joined, lemma_scan_word, nonblank_trimmed, trim, trim_end, trim_start, word_scan, words, parse_unsigned, pieces, push_chars, push_decimal,
    push_str, same_items, split_pieces, string_of, trim_chars, unsigned_text,
};

verus! {

/// The TCP port of the server unless told otherwise.
pub const DEFAULT_SERVER_PORT: u16 = 8888;

/// The lowest port the client accepts, for TCP and UDP alike.
pub const PORT_MIN: u16 = 1024;

/// The highest port the client accepts, for TCP and UDP alike.
pub const PORT_MAX: u16 = 49151;

/// Ways the client program ends early.
#[derive(Clone, Copy, Debug, PartialEq, Eq, Structural)]
pub enum ExitCode {
    /// The server's socket address could not be formed.
    InvalidServerSocket,
    /// The UDP URL could not be formed.
    InvalidUDP,
}

impl ExitCode {
    /// The process exit status of this code.
    pub fn value(&self) -> (r: u8)
        ensures
            *self == ExitCode::InvalidServerSocket ==> r == 1,
            *self == ExitCode::InvalidUDP ==> r == 2,
    {
        match self {
            ExitCode::InvalidServerSocket => 1,
            ExitCode::InvalidUDP => 2,
        }
    }
}

/// The message for a port argument that is no number.
pub open spec fn invalid_port_text(s: Seq<char>) -> Seq<char> {
    "invalid port number: "@ + s
}

/// The message for a port argument outside `lo..=hi`.
pub open spec fn out_of_range_text(s: Seq<char>, lo: nat, hi: nat) -> Seq<char> {
    "port number "@ + s + " not in range "@ + decimal(lo) + " — "@ + decimal(hi)
}

pub fn invalid_port_message(s: &str) -> (r: String)
    ensures
        r@ == invalid_port_text(s@),
{
    let mut v = chars_of("invalid port number: ");
    push_str(&mut v, s);
    string_of(&v)
}

pub fn out_of_range_message(s: &str, lo: u16, hi: u16) -> (r: String)
    ensures
        r@ == out_of_range_text(s@, lo as nat, hi as nat),
{
    let mut v = chars_of("port number ");
    push_str(&mut v, s);
    push_str(&mut v, " not in range ");
    push_decimal(&mut v, lo as u64);
    push_str(&mut v, " — ");
    push_decimal(&mut v, hi as u64);
    string_of(&v)
}

/// Checks a port argument: a number that fits in 16 bits and lies in `lo..=hi`.
pub fn port_in_range(s: &str, lo: u16, hi: u16) -> (r: Result<u16, String>)
    ensures
        r is Ok <==> (unsigned_text(s@) matches Some(v) && lo <= v <= hi),
        r matches Ok(p) ==> unsigned_text(s@) == Some(p as int),
        r matches Err(m) ==> m@ == (if unsigned_text(s@) matches Some(v) && v <= u16::MAX {
            out_of_range_text(s@, lo as nat, hi as nat)
        } else {
            invalid_port_text(s@)
        }),
{
    let v = chars_of(s);
    match parse_unsigned(&v, u16::MAX as u64) {
        None => Err(invalid_port_message(s)),
        Some(p) => {
            if lo as u64 <= p && p <= hi as u64 {
                Ok(p as u16)
            } else {
                Err(out_of_range_message(s, lo, hi))
            }
        },
    }
}

/// Checks the `--port` argument (the server's TCP port).
pub fn validate_tcp_port(s: &str) -> (r: Result<u16, String>)
    ensures
        r is Ok <==> (unsigned_text(s@) matches Some(v) && PORT_MIN <= v <= PORT_MAX),
        r matches Ok(p) ==> unsigned_text(s@) == Some(p as int),
{
    port_in_range(s, PORT_MIN, PORT_MAX)
}

/// Checks the `--udp` argument (the local UDP port).
pub fn validate_udp_port(s: &str) -> (r: Result<u16, String>)
    ensures
        r is Ok <==> (unsigned_text(s@) matches Some(v) && PORT_MIN <= v <= PORT_MAX),
        r matches Ok(p) ==> unsigned_text(s@) == Some(p as int),
{
    port_in_range(s, PORT_MIN, PORT_MAX)
}

/// The URL the client receives quotes at: the loopback address and its UDP port.
pub open spec fn udp_url_text(port: nat) -> Seq<char> {
    "udp://127.0.0.1:"@ + decimal(port)
}

/// The URL the client receives quotes at, for a local UDP port.
pub fn make_udp_url(port_udp: u16) -> (r: String)
    ensures
        r@ == udp_url_text(port_udp as nat),
{
    let mut v = chars_of("udp://127.0.0.1:");
    push_decimal(&mut v, port_udp as u64);
    string_of(&v)
}

/// What the client asks the server for.
#[derive(Clone, Debug)]
pub enum Commands {
    /// Quotes of the listed tickers; all of them where the list is empty.
    Stream { tickers: Vec<String> },
    /// Cancel the earlier subscription.
    Cancel,
}

/// The command line that asks for a request.
pub open spec fn command_text(command: Commands, udp_url: Seq<char>) -> Seq<char> {
    match command {
        Commands::Stream { tickers } => "STREAM "@ + udp_url + " "@ + (if tickers@.len() == 0 {
            "ALL"@
        } else {
            joined(texts(tickers@), ',')
        }),
        Commands::Cancel => "CANCEL "@ + udp_url,
    }
}

fn push_joined(out: &mut Vec<char>, items: &Vec<String>, sep: char)
    ensures
        final(out)@ == old(out)@ + joined(texts(items@), sep),
{
    let ghost start = out@;
    let mut i: usize = 0;
    while i < items.len()
        invariant
            i <= items@.len(),
            out@ == start + joined(texts(items@).subrange(0, i as int), sep),
        decreases items@.len() - i,
    {
        let ghost ts = texts(items@);
        assert(ts.subrange(0, i + 1).drop_last() =~= ts.subrange(0, i as int));
        assert(ts.subrange(0, i + 1).last() == items@[i as int]@);
        if i > 0 {
            out.push(sep);
        }
        let iv = chars_of(items[i].as_str());
        push_chars(out, &iv);
        proof {
            if i == 0 {
                assert(joined(ts.subrange(0, 1), sep) == ts.subrange(0, 1)[0]);
                assert(joined(ts.subrange(0, 0), sep) =~= Seq::<char>::empty());
                assert(out@ =~= start + joined(ts.subrange(0, 1), sep));
            } else {
                assert(out@ =~= start + joined(ts.subrange(0, i + 1), sep));
            }
        }
        i = i + 1;
    }
    assert(texts(items@).subrange(0, items@.len() as int) =~= texts(items@));
}

/// The tickers a request lists, and the command line that asks for it.
pub fn tickers_and_command(command: &Commands, udp_url: &str) -> (r: (Vec<String>, String))
    ensures
        r.1@ == command_text(*command, udp_url@),
        command matches Commands::Stream { tickers } ==> r.0@ == tickers@,
        *command is Cancel ==> r.0@.len() == 0,
{
    match command {
        Commands::Stream { tickers } => {
            let mut v = chars_of("STREAM ");
            push_str(&mut v, udp_url);
            push_str(&mut v, " ");
            if tickers.len() == 0 {
                push_str(&mut v, "ALL");
            } else {
                push_joined(&mut v, tickers, ',');
            }
            proof {
                assert(v@ =~= command_text(*command, udp_url@));
            }
            (tickers.clone(), string_of(&v))
        },
        Commands::Cancel => {
            let mut v = chars_of("CANCEL ");
            push_str(&mut v, udp_url);
            (Vec::new(), string_of(&v))
        },
    }
}

/// The tickers listed in a ticker file: one per line, blanks around them and
/// blank lines ignored.
pub open spec fn ticker_file_items(text: Seq<char>) -> Seq<Seq<char>> {
    nonblank_trimmed(pieces(text, '\n'))
}

/// Reads the contents of a ticker file; `None` where it lists no ticker.
pub fn parse_ticker_data(text: &str) -> (r: Option<Vec<String>>)
    ensures
        r is None <==> ticker_file_items(text@).len() == 0,
        r matches Some(v) ==> texts(v@) == ticker_file_items(text@),
{
    let cv = chars_of(text);
    let ps = split_pieces(&cv, '\n');
    let mut r: Vec<String> = Vec::new();
    let mut i: usize = 0;
    while i < ps.len()
        invariant
            i <= ps@.len(),
            same_items(ps@, pieces(text@, '\n')),
            texts(r@) == nonblank_trimmed(pieces(text@, '\n').subrange(0, i as int)),
        decreases ps@.len() - i,
    {
        let ghost all = pieces(text@, '\n');
        assert(all.subrange(0, i + 1).drop_last() =~= all.subrange(0, i as int));
        let t = trim_chars(&ps[i]);
        if t.len() > 0 {
            let ghost before = r@;
            r.push(string_of(&t));
            assert(texts(r@) =~= texts(before).push(t@));
        }
        i = i + 1;
    }
    assert(pieces(text@, '\n').subrange(0, ps@.len() as int) =~= pieces(text@, '\n'));
    if r.len() == 0 {
        None
    } else {
        Some(r)
    }
}

proof fn lemma_keyword_words(k: Seq<char>, url: Seq<char>)
    requires
        k.len() > 0,
        url.len() > 0,
        forall|i: int| 0 <= i < k.len() ==> !is_space_char(#[trigger] k[i]),
        forall|i: int| 0 <= i < url.len() ==> !is_space_char(#[trigger] url[i]),
    ensures
        word_scan(k.push(' ') + url) == (seq![k], url),
{
    let e = Seq::<char>::empty();
    lemma_scan_word(e, k);
    assert(e + k =~= k);
    assert(word_scan(e) == (Seq::<Seq<char>>::empty(), e));
    assert(e + k =~= k);
    lemma_scan_blank(k, ' ');
    assert(Seq::<Seq<char>>::empty().push(k) =~= seq![k]);
    lemma_scan_word(k.push(' '), url);
    assert(e + url =~= url);
}

proof fn lemma_three_words(k: Seq<char>, url: Seq<char>, a: Seq<char>)
    requires
        k.len() > 0,
        url.len() > 0,
        a.len() > 0,
        forall|i: int| 0 <= i < k.len() ==> !is_space_char(#[trigger] k[i]),
        forall|i: int| 0 <= i < url.len() ==> !is_space_char(#[trigger] url[i]),
        forall|i: int| 0 <= i < a.len() ==> !is_space_char(#[trigger] a[i]),
    ensures
        words((k.push(' ') + url).push(' ') + a) == seq![k, url, a],
{
    reveal_strlit(" ");
    lemma_keyword_words(k, url);
    lemma_scan_blank(k.push(' ') + url, ' ');
    lemma_scan_word((k.push(' ') + url).push(' '), a);
    assert(Seq::<char>::empty() + a =~= a);
    assert(seq![k].push(url).push(a) =~= seq![k, url, a]);
}

/// The request for all tickers, written as the client writes it, is read by
/// the server as an accepted `STREAM` request for all tickers at that URL,
/// wherever the URL has no blanks and is a `udp` URL, and tickers are loaded.
pub proof fn lemma_all_request_accepted(c: Commands, url: Seq<char>, known: Seq<Seq<char>>)
    requires
        c is Stream,
        c->tickers@.len() == 0,
        url.len() > 0,
        forall|i: int| 0 <= i < url.len() ==> !is_space_char(#[trigger] url[i]),
        url_scheme(url) == Some("udp"@),
        known.len() > 0,
    ensures
        words(command_text(c, url)).len() == 3,
        command_of(words(command_text(c, url))[0]) == Some(Command::Stream),
        line_args(command_text(c, url))[0] == url,
        stream_fault(line_args(command_text(c, url)), known) is None,
        stream_filter(line_args(command_text(c, url))).len() == 0,
{
    reveal_strlit("STREAM ");
    reveal_strlit("STREAM");
    reveal_strlit("stream");
    reveal_strlit("ALL");
    reveal_strlit(" ");
    let k = "STREAM"@;
    let a = "ALL"@;
    let t = command_text(c, url);
    assert(t =~= (k.push(' ') + url).push(' ') + a);
    assert(forall|i: int| 0 <= i < k.len() ==> !is_space_char(#[trigger] k[i]));
    assert(forall|i: int| 0 <= i < a.len() ==> !is_space_char(#[trigger] a[i]));
    lemma_three_words(k, url, a);
    assert(trim_start(k) == k);
    assert(trim_end(k) == k);
    assert(ascii_lower(trim(k)) =~= "stream"@);
    assert(line_args(t) =~= seq![url, a]);
    assert(ascii_upper(a) =~= "ALL"@);
}

/// The cancel request, written as the client writes it, is read by the
/// server as a `CANCEL` command wherever the URL has no blanks.
pub proof fn lemma_cancel_request_read(url: Seq<char>)
    requires
        url.len() > 0,
        forall|i: int| 0 <= i < url.len() ==> !is_space_char(#[trigger] url[i]),
    ensures
        words(command_text(Commands::Cancel, url)).len() == 2,
        command_of(words(command_text(Commands::Cancel, url))[0]) == Some(Command::Cancel),
{
    reveal_strlit("CANCEL ");
    reveal_strlit("CANCEL");
    reveal_strlit("cancel");
    reveal_strlit("stream");
    let k = "CANCEL"@;
    let t = command_text(Commands::Cancel, url);
    assert(t =~= k.push(' ') + url);
    assert(forall|i: int| 0 <= i < k.len() ==> !is_space_char(#[trigger] k[i]));
    lemma_keyword_words(k, url);
    assert(words(t) =~= seq![k, url]);
    assert(trim_start(k) == k);
    assert(trim_end(k) == k);
    assert(ascii_lower(trim(k)) =~= "cancel"@);
    assert("cancel"@[0] != "stream"@[0]);
    assert(ascii_lower(trim(k)) != "stream"@);
}

/// A ticker as the client lists it: not empty, no blanks, no commas, no
/// lower-case ASCII letters.
pub open spec fn plain_ticker(t: Seq<char>) -> bool {
    t.len() > 0 && ascii_upper(t) == t && forall|i: int|
        0 <= i < t.len() ==> !is_space_char(#[trigger] t[i]) && t[i] != ','
}

proof fn lemma_plain_items(ts: Seq<Seq<char>>)
    requires
        forall|k: int| 0 <= k < ts.len() ==> plain_ticker(#[trigger] ts[k]),
    ensures
        ticker_items(ts) == ts,
    decreases ts.len(),
{
    if ts.len() > 0 {
        let dl = ts.drop_last();
        assert forall|k: int| 0 <= k < dl.len() implies plain_ticker(#[trigger] dl[k]) by {
            assert(dl[k] == ts[k]);
        }
        lemma_plain_items(dl);
        let t = ts.last();
        assert(plain_ticker(ts[ts.len() - 1]));
        assert(!is_space_char(t[0]));
        assert(trim_start(t) == t);
        assert(!is_space_char(t[t.len() - 1]));
        assert(trim_end(t) == t);
        assert(dl.push(t) =~= ts);
    }
}

/// A request for a list of loaded tickers, written as the client writes it,
/// is read by the server as an accepted `STREAM` request whose filter is
/// exactly that list, wherever the URL has no blanks and is a `udp` URL.
/// (A list of the one ticker `ALL` is read as a request for all tickers.)
pub proof fn lemma_listed_request_accepted(c: Commands, url: Seq<char>, known: Seq<Seq<char>>)
    requires
        c is Stream,
        c->tickers@.len() > 0,
        forall|k: int| 0 <= k < c->tickers@.len() ==> plain_ticker(#[trigger] c->tickers@[k]@),
        all_known(texts(c->tickers@), known),
        texts(c->tickers@) != seq!["ALL"@],
        url.len() > 0,
        forall|i: int| 0 <= i < url.len() ==> !is_space_char(#[trigger] url[i]),
        url_scheme(url) == Some("udp"@),
        known.len() > 0,
    ensures
        words(command_text(c, url)).len() == 3,
        command_of(words(command_text(c, url))[0]) == Some(Command::Stream),
        line_args(command_text(c, url))[0] == url,
        stream_fault(line_args(command_text(c, url)), known) is None,
        stream_filter(line_args(command_text(c, url))) == texts(c->tickers@),
{
    reveal_strlit("STREAM ");
    reveal_strlit("STREAM");
    reveal_strlit("stream");
    reveal_strlit("ALL");
    reveal_strlit(" ");
    let tickers = c->tickers;
    let ts = texts(tickers@);
    assert(ts != seq!["ALL"@]);
    assert forall|q: int| 0 <= q < ts.len() implies plain_ticker(#[trigger] ts[q]) by {
        assert(ts[q] == tickers@[q]@);
    }
    let k = "STREAM"@;
    let a = joined(ts, ',');
    let t = command_text(c, url);
    assert(t == "STREAM "@ + url + " "@ + a);
    assert(t =~= (k.push(' ') + url).push(' ') + a);
    lemma_list_text(ts);
    lemma_stream_keyword();
    lemma_three_words(k, url, a);
    let args = line_args(t);
    assert(args =~= seq![url, a]);
    assert(requested_tickers(args[1]) == ts);
    assert(!(ascii_upper(args[1]) == "ALL"@));
    assert(stream_filter(args) == ts);
}

proof fn lemma_stream_keyword()
    ensures
        "STREAM"@.len() > 0,
        forall|i: int| 0 <= i < "STREAM"@.len() ==> !is_space_char(#[trigger] "STREAM"@[i]),
        command_of("STREAM"@) == Some(Command::Stream),
{
    reveal_strlit("STREAM");
    reveal_strlit("stream");
    let k = "STREAM"@;
    assert(trim_start(k) == k);
    assert(trim_end(k) == k);
    assert(ascii_lower(trim(k)) =~= "stream"@);
}

/// The list text of plain tickers: no blanks, not `ALL` unless the list is
/// that one ticker, and read back as the same list.
proof fn lemma_list_text(ts: Seq<Seq<char>>)
    requires
        ts.len() > 0,
        forall|q: int| 0 <= q < ts.len() ==> plain_ticker(#[trigger] ts[q]),
        ts != seq!["ALL"@],
    ensures
        joined(ts, ',').len() > 0,
        forall|i: int| 0 <= i < joined(ts, ',').len() ==> !is_space_char(#[trigger] joined(ts, ',')[i]),
        requested_tickers(joined(ts, ',')) == ts,
        ascii_upper(joined(ts, ',')) != "ALL"@,
{
    let a = joined(ts, ',');
    assert forall|q: int, i: int| 0 <= q < ts.len() && 0 <= i < ts[q].len() implies !is_space_char(
        #[trigger] ts[q][i],
    ) && ts[q][i] != ',' by {
        assert(plain_ticker(ts[q]));
    }
    lemma_joined_no_blank(ts, ',');
    lemma_pieces_of_joined(ts, ',');
    lemma_plain_items(ts);
    reveal_strlit("ALL");
    if ts.len() == 1 {
        assert(a == ts[0]);
        assert(plain_ticker(ts[0]));
        assert(ascii_upper(a) == a);
        if ascii_upper(a) == "ALL"@ {
            assert(ts =~= seq!["ALL"@]);
        }
    } else {
        let j = joined(ts.drop_last(), ',');
        assert(a == j.push(',') + ts.last());
        assert(a[j.len() as int] == ',');
        assert(ascii_upper(a).len() == a.len());
        assert(ascii_upper(a)[j.len() as int] == ',');
        if ascii_upper(a) == "ALL"@ {
            assert(j.len() < 3);
            assert("ALL"@[j.len() as int] != ',');
        }
    }
}

} // verus!
