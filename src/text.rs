//! Character-level helpers shared by the command grammar and the client tools.
use vstd::prelude::*;
use vstd::std_specs::iter::IteratorSpec;

verus! {

/// The Unicode `White_Space` property: the characters that `char::is_whitespace`
/// and `str::trim` treat as blank.
pub open spec fn is_space_char(c: char) -> bool {
    let u = c as u32;
    (9 <= u && u <= 13) || u == 32 || u == 0x85 || u == 0xa0 || u == 0x1680 || (0x2000 <= u
        && u <= 0x200a) || u == 0x2028 || u == 0x2029 || u == 0x202f || u == 0x205f || u == 0x3000
}

pub fn is_space(c: char) -> (r: bool)
    ensures
        r == is_space_char(c),
{
    let u = c as u32;
    (9 <= u && u <= 13) || u == 32 || u == 0x85 || u == 0xa0 || u == 0x1680 || (0x2000 <= u
        && u <= 0x200a) || u == 0x2028 || u == 0x2029 || u == 0x202f || u == 0x205f || u == 0x3000
}

/// The characters of a string, in order.
pub fn chars_of(s: &str) -> (r: Vec<char>)
    ensures
        r@ == s@,
{
    broadcast use vstd::string::group_string_axioms;
    let mut it = s.chars();
    let mut r: Vec<char> = Vec::new();
    loop
        invariant
            r@ + it.remaining() == s@,
            it.decrease() is Some,
        decreases it.decrease()->0,
    {
        let ghost before = it.remaining();
        match it.next() {
            Some(c) => {
                assert(before == seq![c] + it.remaining());
                r.push(c);
                assert(r@ + it.remaining() =~= s@);
            },
            None => {
                assert(r@ =~= s@);
                return r;
            },
        }
    }
}

/// Relies on collecting characters into a `String`: the same characters, in order.
#[verifier::external_body]
pub(crate) fn string_of(v: &Vec<char>) -> (r: String)
    ensures
        r@ == v@,
{
    v.iter().collect()
}

/// `s` without its leading blanks.
pub open spec fn trim_start(s: Seq<char>) -> Seq<char>
    decreases s.len(),
{
    if s.len() > 0 && is_space_char(s[0]) {
        trim_start(s.drop_first())
    } else {
        s
    }
}

/// `s` without its trailing blanks.
pub open spec fn trim_end(s: Seq<char>) -> Seq<char>
    decreases s.len(),
{
    if s.len() > 0 && is_space_char(s.last()) {
        trim_end(s.drop_last())
    } else {
        s
    }
}

/// `s` without leading and trailing blanks.
pub open spec fn trim(s: Seq<char>) -> Seq<char> {
    trim_end(trim_start(s))
}

pub fn trim_chars(s: &Vec<char>) -> (r: Vec<char>)
    ensures
        r@ == trim(s@),
{
    let n = s.len();
    let mut i: usize = 0;
    assert(s@.subrange(0, n as int) =~= s@);
    while i < n && is_space(s[i])
        invariant
            i <= n == s@.len(),
            trim_start(s@) == trim_start(s@.subrange(i as int, n as int)),
        decreases n - i,
    {
        assert(s@.subrange(i as int, n as int).drop_first() =~= s@.subrange(i + 1, n as int));
        i = i + 1;
    }
    assert(trim_start(s@.subrange(i as int, n as int)) == s@.subrange(i as int, n as int));
    let mut j: usize = n;
    while j > i && is_space(s[j - 1])
        invariant
            i <= j <= n == s@.len(),
            trim(s@) == trim_end(s@.subrange(i as int, j as int)),
        decreases j,
    {
        assert(s@.subrange(i as int, j as int).drop_last() =~= s@.subrange(i as int, j - 1));
        j = j - 1;
    }
    let mut r: Vec<char> = Vec::new();
    let mut k: usize = i;
    while k < j
        invariant
            i <= k <= j <= n == s@.len(),
            r@ == s@.subrange(i as int, k as int),
        decreases j - k,
    {
        r.push(s[k]);
        assert(r@ =~= s@.subrange(i as int, k + 1));
        k = k + 1;
    }
    r
}

/// Splitting `s` at blanks, left to right: the words finished so far and the
/// word being read.
pub open spec fn word_scan(s: Seq<char>) -> (Seq<Seq<char>>, Seq<char>)
    decreases s.len(),
{
    if s.len() == 0 {
        (Seq::empty(), Seq::empty())
    } else {
        let (words, cur) = word_scan(s.drop_last());
        if is_space_char(s.last()) {
            if cur.len() > 0 {
                (words.push(cur), Seq::empty())
            } else {
                (words, cur)
            }
        } else {
            (words, cur.push(s.last()))
        }
    }
}

/// The maximal runs of non-blank characters of `s`, in order.
pub open spec fn words(s: Seq<char>) -> Seq<Seq<char>> {
    let (ws, cur) = word_scan(s);
    if cur.len() > 0 {
        ws.push(cur)
    } else {
        ws
    }
}

/// Reading characters that are not blank extends the word being read.
pub proof fn lemma_scan_word(p: Seq<char>, w: Seq<char>)
    requires
        forall|i: int| 0 <= i < w.len() ==> !is_space_char(#[trigger] w[i]),
    ensures
        word_scan(p + w) == (word_scan(p).0, word_scan(p).1 + w),
    decreases w.len(),
{
    if w.len() == 0 {
        assert(p + w =~= p);
        assert(word_scan(p).1 + w =~= word_scan(p).1);
    } else {
        lemma_scan_word(p, w.drop_last());
        assert((p + w).drop_last() =~= p + w.drop_last());
        assert((p + w).last() == w.last());
        assert((word_scan(p).1 + w.drop_last()).push(w.last()) =~= word_scan(p).1 + w);
    }
}

/// Reading a blank finishes the word being read, if there is one.
pub proof fn lemma_scan_blank(p: Seq<char>, c: char)
    requires
        is_space_char(c),
    ensures
        word_scan(p.push(c)) == (if word_scan(p).1.len() > 0 {
            (word_scan(p).0.push(word_scan(p).1), Seq::<char>::empty())
        } else {
            word_scan(p)
        }),
{
    assert(p.push(c).drop_last() =~= p);
}

/// Two sequences of character sequences that hold the same items.
pub open spec fn same_items(v: Seq<Vec<char>>, s: Seq<Seq<char>>) -> bool {
    v.len() == s.len() && forall|i: int| 0 <= i < s.len() ==> #[trigger] v[i]@ == s[i]
}

pub fn split_words(s: &Vec<char>) -> (r: Vec<Vec<char>>)
    ensures
        same_items(r@, words(s@)),
{
    let mut ws: Vec<Vec<char>> = Vec::new();
    let mut cur: Vec<char> = Vec::new();
    let mut i: usize = 0;
    while i < s.len()
        invariant
            i <= s@.len(),
            same_items(ws@, word_scan(s@.subrange(0, i as int)).0),
            cur@ == word_scan(s@.subrange(0, i as int)).1,
        decreases s@.len() - i,
    {
        let ghost pre = s@.subrange(0, i as int);
        assert(s@.subrange(0, i + 1).drop_last() =~= pre);
        let c = s[i];
        if is_space(c) {
            if cur.len() > 0 {
                ws.push(cur);
                cur = Vec::new();
            }
        } else {
            cur.push(c);
        }
        i = i + 1;
    }
    assert(s@.subrange(0, s@.len() as int) =~= s@);
    if cur.len() > 0 {
        ws.push(cur);
    }
    ws
}

/// Splitting `s` at each `sep`, left to right: the pieces finished so far and
/// the piece being read.
pub open spec fn piece_scan(s: Seq<char>, sep: char) -> (Seq<Seq<char>>, Seq<char>)
    decreases s.len(),
{
    if s.len() == 0 {
        (Seq::empty(), Seq::empty())
    } else {
        let (ps, cur) = piece_scan(s.drop_last(), sep);
        if s.last() == sep {
            (ps.push(cur), Seq::empty())
        } else {
            (ps, cur.push(s.last()))
        }
    }
}

/// The pieces of `s` between occurrences of `sep`, empty pieces included.
pub open spec fn pieces(s: Seq<char>, sep: char) -> Seq<Seq<char>> {
    let (ps, cur) = piece_scan(s, sep);
    ps.push(cur)
}

pub fn split_pieces(s: &Vec<char>, sep: char) -> (r: Vec<Vec<char>>)
    ensures
        same_items(r@, pieces(s@, sep)),
{
    let mut ps: Vec<Vec<char>> = Vec::new();
    let mut cur: Vec<char> = Vec::new();
    let mut i: usize = 0;
    while i < s.len()
        invariant
            i <= s@.len(),
            same_items(ps@, piece_scan(s@.subrange(0, i as int), sep).0),
            cur@ == piece_scan(s@.subrange(0, i as int), sep).1,
        decreases s@.len() - i,
    {
        assert(s@.subrange(0, i + 1).drop_last() =~= s@.subrange(0, i as int));
        let c = s[i];
        if c == sep {
            ps.push(cur);
            cur = Vec::new();
        } else {
            cur.push(c);
        }
        i = i + 1;
    }
    assert(s@.subrange(0, s@.len() as int) =~= s@);
    ps.push(cur);
    ps
}

pub open spec fn ascii_upper_char(c: char) -> char {
    if 'a' <= c && c <= 'z' {
        ((c as u32) - 32) as char
    } else {
        c
    }
}

pub open spec fn ascii_lower_char(c: char) -> char {
    if 'A' <= c && c <= 'Z' {
        ((c as u32) + 32) as char
    } else {
        c
    }
}

/// `s` with ASCII letters in upper case, as `str::to_ascii_uppercase` gives it.
pub open spec fn ascii_upper(s: Seq<char>) -> Seq<char> {
    s.map_values(|c: char| ascii_upper_char(c))
}

/// `s` with ASCII letters in lower case, as `str::to_ascii_lowercase` gives it.
pub open spec fn ascii_lower(s: Seq<char>) -> Seq<char> {
    s.map_values(|c: char| ascii_lower_char(c))
}

pub fn upper_char(c: char) -> (r: char)
    ensures
        r == ascii_upper_char(c),
{
    if 'a' <= c && c <= 'z' {
        (((c as u32) - 32) as u8) as char
    } else {
        c
    }
}

pub fn lower_char(c: char) -> (r: char)
    ensures
        r == ascii_lower_char(c),
{
    if 'A' <= c && c <= 'Z' {
        (((c as u32) + 32) as u8) as char
    } else {
        c
    }
}

pub fn to_ascii_upper(s: &Vec<char>) -> (r: Vec<char>)
    ensures
        r@ == ascii_upper(s@),
{
    let mut r: Vec<char> = Vec::new();
    let mut i: usize = 0;
    while i < s.len()
        invariant
            i <= s@.len(),
            r@ == ascii_upper(s@.subrange(0, i as int)),
        decreases s@.len() - i,
    {
        let c = upper_char(s[i]);
        r.push(c);
        i = i + 1;
        assert(r@ =~= ascii_upper(s@.subrange(0, i as int)));
    }
    assert(s@.subrange(0, s@.len() as int) =~= s@);
    r
}

pub fn to_ascii_lower(s: &Vec<char>) -> (r: Vec<char>)
    ensures
        r@ == ascii_lower(s@),
{
    let mut r: Vec<char> = Vec::new();
    let mut i: usize = 0;
    while i < s.len()
        invariant
            i <= s@.len(),
            r@ == ascii_lower(s@.subrange(0, i as int)),
        decreases s@.len() - i,
    {
        let c = lower_char(s[i]);
        r.push(c);
        i = i + 1;
        assert(r@ =~= ascii_lower(s@.subrange(0, i as int)));
    }
    assert(s@.subrange(0, s@.len() as int) =~= s@);
    r
}

pub fn eq_chars(a: &Vec<char>, b: &Vec<char>) -> (r: bool)
    ensures
        r == (a@ == b@),
{
    if a.len() != b.len() {
        return false;
    }
    let mut i: usize = 0;
    while i < a.len()
        invariant
            i <= a@.len() == b@.len(),
            forall|k: int| 0 <= k < i ==> a@[k] == b@[k],
        decreases a@.len() - i,
    {
        if a[i] != b[i] {
            return false;
        }
        i = i + 1;
    }
    assert(a@ =~= b@);
    true
}

pub open spec fn digit_char(d: nat) -> char {
    ((d % 10) + 48) as char
}

/// The decimal digits of `n`, most significant first, without leading zeros.
pub open spec fn decimal(n: nat) -> Seq<char>
    decreases n,
{
    if n < 10 {
        seq![digit_char(n)]
    } else {
        decimal(n / 10).push(digit_char(n % 10))
    }
}

pub fn push_decimal(out: &mut Vec<char>, n: u64)
    ensures
        final(out)@ == old(out)@ + decimal(n as nat),
    decreases n,
{
    if n >= 10 {
        push_decimal(out, n / 10);
    }
    let d = (n % 10) as u32 + 48;
    let c = char_from_digit(d);
    out.push(c);
    assert(final(out)@ =~= old(out)@ + decimal(n as nat));
}

fn char_from_digit(d: u32) -> (c: char)
    requires
        48 <= d <= 57,
    ensures
        c == d as char,
{
    (d as u8) as char
}

/// Appends the characters of the string `t` to `out`.
pub fn push_str(out: &mut Vec<char>, t: &str)
    ensures
        final(out)@ == old(out)@ + t@,
{
    let mut v = chars_of(t);
    out.append(&mut v);
}

/// Appends the characters `t` to `out`.
pub fn push_chars(out: &mut Vec<char>, t: &Vec<char>)
    ensures
        final(out)@ == old(out)@ + t@,
{
    let mut i: usize = 0;
    let ghost start = out@;
    while i < t.len()
        invariant
            i <= t@.len(),
            out@ == start + t@.subrange(0, i as int),
        decreases t@.len() - i,
    {
        out.push(t[i]);
        i = i + 1;
        assert(out@ =~= start + t@.subrange(0, i as int));
    }
    assert(t@.subrange(0, t@.len() as int) =~= t@);
}


pub open spec fn is_digit_char(c: char) -> bool {
    '0' <= c && c <= '9'
}

/// The number that a run of decimal digits stands for.
pub open spec fn digits_value(s: Seq<char>) -> int
    decreases s.len(),
{
    if s.len() == 0 {
        0
    } else {
        digits_value(s.drop_last()) * 10 + ((s.last() as u32) - 48)
    }
}

/// The digits of an unsigned number as `str::parse` reads it: an optional `+`
/// sign, then the digits.
pub open spec fn unsigned_digits(s: Seq<char>) -> Seq<char> {
    if s.len() > 0 && s[0] == '+' {
        s.drop_first()
    } else {
        s
    }
}

/// The value of `s` read as an unsigned decimal number, if it is one.
pub open spec fn unsigned_text(s: Seq<char>) -> Option<int> {
    let d = unsigned_digits(s);
    if d.len() > 0 && forall|i: int| 0 <= i < d.len() ==> is_digit_char(#[trigger] d[i]) {
        Some(digits_value(d))
    } else {
        None
    }
}

proof fn lemma_digits_nonneg(s: Seq<char>)
    requires
        forall|i: int| 0 <= i < s.len() ==> is_digit_char(#[trigger] s[i]),
    ensures
        digits_value(s) >= 0,
    decreases s.len(),
{
    if s.len() > 0 {
        lemma_digits_nonneg(s.drop_last());
    }
}

/// Reads `s` as an unsigned decimal number no greater than `max`.
pub fn parse_unsigned(s: &Vec<char>, max: u64) -> (r: Option<u64>)
    ensures
        r is Some <==> (unsigned_text(s@) matches Some(v) && v <= max),
        r matches Some(v) ==> unsigned_text(s@) == Some(v as int),
{
    let n = s.len();
    let st: usize = if n > 0 && s[0] == '+' {
        1
    } else {
        0
    };
    let ghost d = unsigned_digits(s@);
    assert(d =~= s@.subrange(st as int, n as int));
    let mut val: u64 = 0;
    let mut big = false;
    let mut k: usize = st;
    while k < n
        invariant
            st <= k <= n == s@.len(),
            d == s@.subrange(st as int, n as int),
            d == unsigned_digits(s@),
            forall|i: int| st <= i < k ==> is_digit_char(#[trigger] s@[i]),
            !big ==> val == digits_value(s@.subrange(st as int, k as int)) && val <= max,
            big ==> digits_value(s@.subrange(st as int, k as int)) > max,
        decreases n - k,
    {
        let c = s[k];
        if !('0' <= c && c <= '9') {
            assert(d[k - st] == c);
            assert(!is_digit_char(d[k - st]));
            assert(unsigned_text(s@) is None);
            return None;
        }
        let dg = ((c as u32) - 48) as u64;
        let ghost prev = s@.subrange(st as int, k as int);
        assert(s@.subrange(st as int, k + 1).drop_last() =~= prev);
        proof {
            assert forall|i: int| 0 <= i < prev.len() implies is_digit_char(#[trigger] prev[i]) by {
                assert(prev[i] == s@[st + i]);
            }
            lemma_digits_nonneg(prev);
        }
        if !big {
            if val > max / 10 || (val == max / 10 && dg > max % 10) {
                assert(val * 10 + dg > max) by (nonlinear_arith)
                    requires
                        val > max / 10 || (val == max / 10 && dg > max % 10),
                        0 <= dg <= 9,
                ;
                big = true;
            } else {
                assert(val * 10 + dg <= max) by (nonlinear_arith)
                    requires
                        !(val > max / 10 || (val == max / 10 && dg > max % 10)),
                        0 <= dg <= 9,
                ;
                val = val * 10 + dg;
            }
        } else {
            assert(digits_value(prev) * 10 + dg > max) by (nonlinear_arith)
                requires
                    digits_value(prev) > max,
                    0 <= dg,
            ;
        }
        k = k + 1;
    }
    if k == st {
        return None;
    }
    assert(s@.subrange(st as int, n as int) =~= d);
    proof {
        assert forall|i: int| 0 <= i < d.len() implies is_digit_char(#[trigger] d[i]) by {
            assert(d[i] == s@[st + i]);
        }
    }
    if big {
        None
    } else {
        Some(val)
    }
}

/// The items of `s` joined with `sep` between them.
pub open spec fn joined(s: Seq<Seq<char>>, sep: char) -> Seq<char>
    decreases s.len(),
{
    if s.len() == 0 {
        Seq::empty()
    } else if s.len() == 1 {
        s[0]
    } else {
        joined(s.drop_last(), sep).push(sep) + s.last()
    }
}

/// The non-blank items of `ps`, each trimmed.
pub open spec fn nonblank_trimmed(ps: Seq<Seq<char>>) -> Seq<Seq<char>>
    decreases ps.len(),
{
    if ps.len() == 0 {
        Seq::empty()
    } else {
        let rest = nonblank_trimmed(ps.drop_last());
        let t = trim(ps.last());
        if t.len() > 0 {
            rest.push(t)
        } else {
            rest
        }
    }
}

/// Reading characters other than `sep` extends the piece being read.
pub proof fn lemma_scan_piece(p: Seq<char>, w: Seq<char>, sep: char)
    requires
        forall|i: int| 0 <= i < w.len() ==> #[trigger] w[i] != sep,
    ensures
        piece_scan(p + w, sep) == (piece_scan(p, sep).0, piece_scan(p, sep).1 + w),
    decreases w.len(),
{
    if w.len() == 0 {
        assert(p + w =~= p);
        assert(piece_scan(p, sep).1 + w =~= piece_scan(p, sep).1);
    } else {
        lemma_scan_piece(p, w.drop_last(), sep);
        assert((p + w).drop_last() =~= p + w.drop_last());
        assert((p + w).last() == w.last());
        assert((piece_scan(p, sep).1 + w.drop_last()).push(w.last()) =~= piece_scan(p, sep).1 + w);
    }
}

/// Splitting items joined with `sep` gives the items back, where none holds `sep`.
pub proof fn lemma_pieces_of_joined(ts: Seq<Seq<char>>, sep: char)
    requires
        ts.len() > 0,
        forall|k: int, i: int| 0 <= k < ts.len() && 0 <= i < ts[k].len() ==> #[trigger] ts[k][i] != sep,
    ensures
        pieces(joined(ts, sep), sep) == ts,
    decreases ts.len(),
{
    let e = Seq::<char>::empty();
    if ts.len() == 1 {
        assert(forall|i: int| 0 <= i < ts[0].len() ==> #[trigger] ts[0][i] != sep);
        lemma_scan_piece(e, ts[0], sep);
        assert(e + ts[0] =~= ts[0]);
        assert(piece_scan(e, sep) == (Seq::<Seq<char>>::empty(), e));
        assert(e + ts[0] =~= ts[0]);
        assert(Seq::<Seq<char>>::empty().push(ts[0]) =~= ts);
    } else {
        let dl = ts.drop_last();
        assert forall|k: int, i: int| 0 <= k < dl.len() && 0 <= i < dl[k].len() implies #[trigger] dl[k][i]
            != sep by {
            assert(dl[k] == ts[k]);
        }
        lemma_pieces_of_joined(dl, sep);
        let j = joined(dl, sep);
        assert(j.push(sep).drop_last() =~= j);
        let last = ts.last();
        assert(forall|i: int| 0 <= i < last.len() ==> #[trigger] last[i] != sep) by {
            assert(last == ts[ts.len() - 1]);
        }
        lemma_scan_piece(j.push(sep), last, sep);
        assert(e + last =~= last);
        assert(dl.push(last) =~= ts);
    }
}

/// Items without blanks, joined with a separator that is no blank, hold no blank.
pub proof fn lemma_joined_no_blank(ts: Seq<Seq<char>>, sep: char)
    requires
        !is_space_char(sep),
        forall|k: int, i: int| 0 <= k < ts.len() && 0 <= i < ts[k].len() ==> !is_space_char(
            #[trigger] ts[k][i],
        ),
    ensures
        forall|i: int| 0 <= i < joined(ts, sep).len() ==> !is_space_char(#[trigger] joined(ts, sep)[i]),
    decreases ts.len(),
{
    if ts.len() == 1 {
        assert(forall|i: int| 0 <= i < ts[0].len() ==> !is_space_char(#[trigger] ts[0][i]));
    } else if ts.len() > 1 {
        let dl = ts.drop_last();
        assert forall|k: int, i: int| 0 <= k < dl.len() && 0 <= i < dl[k].len() implies !is_space_char(
            #[trigger] dl[k][i],
        ) by {
            assert(dl[k] == ts[k]);
        }
        lemma_joined_no_blank(dl, sep);
        let j = joined(dl, sep);
        let last = ts[ts.len() - 1];
        assert(joined(ts, sep) == j.push(sep) + last);
        assert forall|i: int| 0 <= i < joined(ts, sep).len() implies !is_space_char(
            #[trigger] joined(ts, sep)[i],
        ) by {
            if i < j.len() {
                assert(joined(ts, sep)[i] == j[i]);
            } else if i == j.len() {
                assert(joined(ts, sep)[i] == sep);
            } else {
                assert(joined(ts, sep)[i] == last[i - j.len() - 1]);
            }
        }
    }
}

} // verus!
