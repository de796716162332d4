//! The placeholder language of record targets and webhook bodies.
//!
//! A text may hold `${name}` placeholders; `$$` stands for a literal `$`.
//! `${ipv4}`, `${ipv6}` and `${timestamp}` are replaced by the current
//! addresses and the Unix time in seconds; any other name is replaced by the
//! name itself.
use vstd::prelude::*;
use vstd::string::StringExecFns;

use crate::error::Error;
use crate::text::{chars_of, decimal, push_decimal, string_of, string_push};
use crate::ip::{Gip, ip_updated};
use std::time::{Duration, SystemTime, SystemTimeError, UNIX_EPOCH};

verus! {

/// A piece of a placeholder text: one literal character (`$$` gives `$`)
/// or one placeholder with its name.
pub enum Piece {
    Char(char),
    Var(Seq<char>),
}

/// Where scanning a placeholder text fails.
pub enum ScanErrorKind {
    /// A `$` is the last character.
    NoNextChar,
    /// A `$` is followed by neither `$` nor `{`.
    NoOpenBrace,
    /// A `${` has no closing `}`.
    NoCloseBrace,
}

/// A scanning failure and the position it is reported at.
pub struct ScanError {
    pub kind: ScanErrorKind,
    pub at: nat,
}

/// The piece of one literal character.
pub open spec fn char_piece(c: char) -> Piece {
    Piece::Char(c)
}

/// How far a piece moves the position counter: a literal character counts
/// one, a placeholder counts its name and its two delimiters `{`, `}`.
pub open spec fn piece_width(p: Piece) -> nat {
    match p {
        Piece::Char(_) => 1,
        Piece::Var(n) => n.len() + 2,
    }
}

/// The position reached after the pieces `ps`.
#[verifier::opaque]
pub open spec fn width(ps: Seq<Piece>) -> nat
    decreases ps.len(),
{
    if ps.len() == 0 {
        0
    } else {
        width(ps.drop_last()) + piece_width(ps.last())
    }
}

/// The index of the first `c` in `t`, if any.
#[verifier::opaque]
pub open spec fn first_index(t: Seq<char>, c: char) -> Option<nat>
    decreases t.len(),
{
    if t.len() == 0 {
        None
    } else if t[0] == c {
        Some(0)
    } else {
        match first_index(t.drop_first(), c) {
            Some(j) => Some(j + 1),
            None => None,
        }
    }
}

/// The pieces `p` in front of the scan result `r`; an error's position
/// moves by the width of `p`.
pub open spec fn prepend(p: Seq<Piece>, r: Result<Seq<Piece>, ScanError>) -> Result<Seq<Piece>, ScanError> {
    match r {
        Ok(q) => Ok(p + q),
        Err(e) => Err(ScanError { kind: e.kind, at: e.at + width(p) }),
    }
}

pub proof fn lemma_first_index_bound(t: Seq<char>, c: char)
    ensures
        first_index(t, c) matches Some(j) ==> j < t.len() && t[j as int] == c
            && forall|k: int| 0 <= k < j ==> t[k] != c,
        first_index(t, c) is None ==> forall|k: int| 0 <= k < t.len() ==> t[k] != c,
    decreases t.len(),
{
    reveal(first_index);
    if t.len() > 0 && t[0] != c {
        lemma_first_index_bound(t.drop_first(), c);
        if first_index(t, c) is None {
            assert forall|k: int| 0 <= k < t.len() implies t[k] != c by {
                if k > 0 {
                    assert(t[k] == t.drop_first()[k - 1]);
                }
            }
        }
        if let Some(j) = first_index(t, c) {
            assert forall|k: int| 0 <= k < j implies t[k] != c by {
                if k > 0 {
                    assert(t[k] == t.drop_first()[k - 1]);
                }
            }
        }
    }
}

/// The pieces of a placeholder text, read from the front: a character
/// other than `$` is literal; `$$` is a literal `$`; `${` starts a
/// placeholder whose name runs to the first `}`.
#[verifier::opaque]
pub open spec fn scan(s: Seq<char>) -> Result<Seq<Piece>, ScanError>
    decreases s.len(),
{
    if s.len() == 0 {
        Ok(Seq::empty())
    } else if s[0] != '$' {
        prepend(seq![Piece::Char(s[0])], scan(s.drop_first()))
    } else if s.len() == 1 {
        Err(ScanError { kind: ScanErrorKind::NoNextChar, at: 0 })
    } else if s[1] == '$' {
        prepend(seq![Piece::Char('$')], scan(s.skip(2)))
    } else if s[1] != '{' {
        Err(ScanError { kind: ScanErrorKind::NoOpenBrace, at: 1 })
    } else {
        match first_index(s.skip(2), '}') {
            None => Err(ScanError { kind: ScanErrorKind::NoCloseBrace, at: (s.len() - 1) as nat }),
            Some(j) => {
                proof {
                    lemma_first_index_bound(s.skip(2), '}');
                }
                prepend(seq![Piece::Var(s.subrange(2, 2 + j as int))], scan(s.skip(3 + j as int)))
            },
        }
    }
}

/// The abstract value of a token: a run of text, or a placeholder with its
/// name and the positions just after its `{` and just after its `}`.
pub enum TokenView {
    Text(Seq<char>),
    Var(Seq<char>, nat, nat),
}

/// A token of a placeholder text.
#[derive(Debug, Clone, PartialEq, Eq)]
pub enum Token {
    Text(String),
    Var(String, usize, usize),
}

impl View for Token {
    type V = TokenView;

    open spec fn view(&self) -> TokenView {
        match self {
            Token::Text(s) => TokenView::Text(s@),
            Token::Var(s, a, b) => TokenView::Var(s@, *a as nat, *b as nat),
        }
    }
}

/// The views of a sequence of tokens.
pub open spec fn token_views(v: Seq<Token>) -> Seq<TokenView> {
    v.map_values(|t: Token| t@)
}

/// `t` followed by the pending text `b`, if there is any.
pub open spec fn flush(t: Seq<TokenView>, b: Seq<char>) -> Seq<TokenView> {
    if b.len() > 0 {
        t.push(TokenView::Text(b))
    } else {
        t
    }
}

/// Grouping pieces from the left: the tokens completed so far and the text
/// still pending. Consecutive literal characters form one text; a
/// placeholder ends the pending text.
#[verifier::opaque]
pub open spec fn group(ps: Seq<Piece>) -> (Seq<TokenView>, Seq<char>)
    decreases ps.len(),
{
    if ps.len() == 0 {
        (Seq::empty(), Seq::empty())
    } else {
        let (t, b) = group(ps.drop_last());
        match ps.last() {
            Piece::Char(c) => (t, b.push(c)),
            Piece::Var(n) => {
                let w = width(ps.drop_last());
                (flush(t, b).push(TokenView::Var(n, w + 1, w + n.len() + 2)), Seq::empty())
            },
        }
    }
}

/// The tokens of a sequence of pieces.
pub open spec fn tokens_of(ps: Seq<Piece>) -> Seq<TokenView> {
    flush(group(ps).0, group(ps).1)
}

/// The message a scanning failure is reported with.
pub open spec fn scan_error_message(e: ScanError) -> Seq<char> {
    match e.kind {
        ScanErrorKind::NoNextChar => "next char is none : "@ + decimal(e.at),
        ScanErrorKind::NoOpenBrace => "{ failed : "@ + decimal(e.at),
        ScanErrorKind::NoCloseBrace => "} failed : "@ + decimal(e.at),
    }
}

/// What `parse` gives for a text: its tokens, or the message of the
/// general error it fails with.
pub open spec fn parse_result(s: Seq<char>) -> Result<Seq<TokenView>, Seq<char>> {
    match scan(s) {
        Ok(ps) => Ok(tokens_of(ps)),
        Err(e) => Err(scan_error_message(e)),
    }
}

proof fn lemma_push_drop_last(a: Seq<Piece>, p: Piece)
    ensures
        a.push(p).drop_last() == a,
        a.push(p).last() == p,
{
    assert(a.push(p).drop_last() =~= a);
}

proof fn lemma_empty()
    ensures
        width(Seq::<Piece>::empty()) == 0,
        group(Seq::<Piece>::empty()) == (Seq::<TokenView>::empty(), Seq::<char>::empty()),
        scan(Seq::<char>::empty()) == Ok::<Seq<Piece>, ScanError>(Seq::<Piece>::empty()),
{
    reveal(width);
    reveal(group);
    reveal(scan);
}

proof fn lemma_scan_errors(r: Seq<char>)
    requires
        r.len() > 0,
        r[0] == '$',
    ensures
        r.len() == 1 ==> scan(r) == Err::<Seq<Piece>, ScanError>(ScanError { kind: ScanErrorKind::NoNextChar, at: 0 }),
        r.len() > 1 && r[1] != '$' && r[1] != '{' ==> scan(r) == Err::<Seq<Piece>, ScanError>(ScanError { kind: ScanErrorKind::NoOpenBrace, at: 1 }),
        r.len() > 1 && r[1] == '{' && first_index(r.skip(2), '}') is None ==> scan(r) == Err::<Seq<Piece>, ScanError>(ScanError { kind: ScanErrorKind::NoCloseBrace, at: (r.len() - 1) as nat }),
{
    reveal(scan);
}

proof fn lemma_width_push(a: Seq<Piece>, p: Piece)
    ensures
        width(a.push(p)) == width(a) + piece_width(p),
{
    reveal(width);
    lemma_push_drop_last(a, p);
}

proof fn lemma_group_char(a: Seq<Piece>, c: char)
    ensures
        group(a.push(Piece::Char(c))) == (group(a).0, group(a).1.push(c)),
{
    reveal(group);
    lemma_push_drop_last(a, Piece::Char(c));
}

proof fn lemma_group_var(a: Seq<Piece>, n: Seq<char>)
    ensures
        group(a.push(Piece::Var(n))) == (
            flush(group(a).0, group(a).1).push(TokenView::Var(n, width(a) + 1, width(a) + n.len() + 2)),
            Seq::<char>::empty(),
        ),
{
    reveal(group);
    lemma_push_drop_last(a, Piece::Var(n));
}

proof fn lemma_scan_char(r: Seq<char>)
    requires
        r.len() > 0,
        r[0] != '$',
    ensures
        scan(r) == prepend(seq![Piece::Char(r[0])], scan(r.drop_first())),
{
    reveal(scan);
}

proof fn lemma_scan_escape(r: Seq<char>)
    requires
        r.len() > 1,
        r[0] == '$',
        r[1] == '$',
    ensures
        scan(r) == prepend(seq![Piece::Char('$')], scan(r.skip(2))),
{
    reveal(scan);
}

proof fn lemma_scan_var(r: Seq<char>, j: nat)
    requires
        r.len() > 1,
        r[0] == '$',
        r[1] == '{',
        first_index(r.skip(2), '}') == Some(j),
    ensures
        scan(r) == prepend(seq![Piece::Var(r.subrange(2, 2 + j as int))], scan(r.skip(3 + j as int))),
{
    reveal(scan);
}

proof fn lemma_prepend_prepend(a: Seq<Piece>, p: Piece, r: Result<Seq<Piece>, ScanError>)
    ensures
        prepend(a, prepend(seq![p], r)) == prepend(a.push(p), r),
{
    assert(a.push(p).drop_last() =~= a);
    assert(seq![p].drop_last() =~= Seq::<Piece>::empty());
    reveal(width);
    assert(seq![p].last() == p);
    assert(width(Seq::<Piece>::empty()) == 0);
    assert(width(seq![p]) == piece_width(p));
    if let Ok(q) = r {
        assert(a + (seq![p] + q) == a.push(p) + q);
    }
}

fn message_at(prefix: &str, pos: usize) -> (s: String)
    ensures
        s@ == prefix@ + decimal(pos as nat),
{
    let mut s = String::from_str(prefix);
    push_decimal(&mut s, pos as u64);
    s
}

/// Reads a placeholder name starting at `from`: the characters up to the
/// first `}`, and the index just after that `}`.
fn read_name(v: &Vec<char>, from: usize) -> (r: Option<(Vec<char>, usize)>)
    requires
        from <= v@.len(),
    ensures
        match first_index(v@.skip(from as int), '}') {
            None => r is None,
            Some(j) => r matches Some((name, next)) && name@ == v@.subrange(from as int, from + j)
                && next == from + j + 1 && next <= v@.len(),
        },
{
    let ghost rest = v@.skip(from as int);
    proof {
        lemma_first_index_bound(rest, '}');
    }
    let mut name: Vec<char> = Vec::new();
    let mut k: usize = from;
    while k < v.len()
        invariant
            from <= k <= v@.len(),
            rest == v@.skip(from as int),
            name@ == v@.subrange(from as int, k as int),
            forall|m: int| from <= m < k ==> v@[m] != '}',
            first_index(rest, '}') matches Some(j) ==> j < rest.len() && rest[j as int] == '}'
                && forall|m: int| 0 <= m < j ==> rest[m] != '}',
            first_index(rest, '}') is None ==> forall|m: int| 0 <= m < rest.len() ==> rest[m] != '}',
        decreases v.len() - k,
    {
        if v[k] == '}' {
            proof {
                assert(rest[k - from] == v@[k as int]);
                match first_index(rest, '}') {
                    Some(j) => {
                        if j < k - from {
                            assert(rest[j as int] == v@[from + j]);
                        }
                        assert(j == k - from);
                    },
                    None => {
                        assert(rest[k - from] != '}');
                    },
                }
                assert(name@ == v@.subrange(from as int, k as int));
            }
            return Some((name, k + 1));
        }
        name.push(v[k]);
        assert(name@ =~= v@.subrange(from as int, k + 1));
        k = k + 1;
    }
    proof {
        if let Some(j) = first_index(rest, '}') {
            assert(rest[j as int] == v@[from + j]);
        }
    }
    None
}

/// Splits a placeholder text into tokens.
pub fn parse(input: &str) -> (r: Result<Vec<Token>, Error>)
    ensures
        match parse_result(input@) {
            Ok(ts) => r matches Ok(toks) && token_views(toks@) == ts,
            Err(m) => r matches Err(Error::General(msg)) && msg@ == m,
        },
{
    let v = chars_of(input);
    let n = v.len();
    let mut result: Vec<Token> = Vec::new();
    let mut buf: Vec<char> = Vec::new();
    let mut pos: usize = 0;
    let mut i: usize = 0;
    let ghost mut done: Seq<Piece> = Seq::empty();
    assert(v@.skip(0) == v@);
    assert(token_views(result@) == Seq::<TokenView>::empty());
    proof {
        lemma_empty();
        assert(prepend(Seq::<Piece>::empty(), scan(v@)) == scan(v@)) by {
            if let Ok(q) = scan(v@) {
                assert(Seq::<Piece>::empty() + q == q);
            }
        }
    }
    while i < n
        invariant
            i <= n,
            n == v@.len(),
            v@ == input@,
            scan(v@) == prepend(done, scan(v@.skip(i as int))),
            pos == width(done),
            pos <= i,
            group(done) == (token_views(result@), buf@),
        decreases n - i,
    {
        let ghost r = v@.skip(i as int);
        let ghost i0 = i;
        let c = v[i];
        i = i + 1;
        if c != '$' {
            buf.push(c);
            pos = pos + 1;
            proof {
                let p = char_piece(c);
                assert(r.drop_first() == v@.skip(i as int));
                lemma_scan_char(r);
                lemma_prepend_prepend(done, p, scan(v@.skip(i as int)));
                lemma_push_drop_last(done, p);
                lemma_width_push(done, p);
                lemma_group_char(done, c);
                assert(r[0] == c);
                done = done.push(p);
            }
            continue;
        }
        if i >= n {
            let m = message_at("next char is none : ", pos);
            proof {
                lemma_scan_errors(r);
            }
            return Err(Error::General(m));
        }
        let c2 = v[i];
        i = i + 1;
        pos = pos + 1;
        if c2 == '$' {
            proof {
                assert(r.skip(2) == v@.skip(i as int));
                lemma_scan_escape(r);
                lemma_prepend_prepend(done, Piece::Char('$'), scan(v@.skip(i as int)));
                lemma_push_drop_last(done, Piece::Char('$'));
                lemma_width_push(done, Piece::Char('$'));
                lemma_group_char(done, '$');
            }
            buf.push('$');
            proof {
                done = done.push(Piece::Char('$'));
            }
            assert(scan(v@) == prepend(done, scan(v@.skip(i as int))));
            assert(pos == width(done));
            continue;
        }
        if c2 != '{' {
            let m = message_at("{ failed : ", pos);
            proof {
                lemma_scan_errors(r);
            }
            return Err(Error::General(m));
        }
        let start = pos;
        let ghost t_before = token_views(result@);
        let ghost b_before = buf@;
        if buf.len() > 0 {
            let text = string_of(&buf);
            result.push(Token::Text(text));
            buf = Vec::new();
            assert(token_views(result@) =~= t_before.push(TokenView::Text(b_before)));
        }
        assert(token_views(result@) == flush(t_before, b_before));
        let ghost rest = r.skip(2);
        assert(rest == v@.skip(i as int));
        match read_name(&v, i) {
            None => {
                proof {
                    lemma_scan_errors(r);
                }
                let m = message_at("} failed : ", pos + (n - i));
                return Err(Error::General(m));
            },
            Some((name, next)) => {
                let ghost j = name@.len();
                let end = pos + name.len() + 1;
                let nm = string_of(&name);
                let ghost before_push = token_views(result@);
                result.push(Token::Var(nm, start, end));
                assert(token_views(result@) =~= before_push.push(TokenView::Var(name@, start as nat, end as nat)));
                i = next;
                pos = end;
                proof {
                    assert(r.subrange(2, 2 + j as int) == name@);
                    assert(r.skip(3 + j as int) == v@.skip(i as int));
                    let p = Piece::Var(name@);
                    lemma_scan_var(r, j);
                    lemma_prepend_prepend(done, p, scan(v@.skip(i as int)));
                    lemma_push_drop_last(done, p);
                    lemma_width_push(done, p);
                    lemma_group_var(done, name@);
                    done = done.push(p);
                }
                continue;
            },
        }
    }
    assert(v@.skip(n as int) == Seq::<char>::empty());
    proof {
        lemma_empty();
    }
    assert(done + Seq::<Piece>::empty() == done);
    let ghost t_end = token_views(result@);
    if buf.len() > 0 {
        let text = string_of(&buf);
        result.push(Token::Text(text));
        assert(token_views(result@) =~= t_end.push(TokenView::Text(buf@)));
    }
    Ok(result)
}

/// The kind of address a task works on.
#[derive(Debug, Clone, Copy)]
pub enum IPType {
    IPV4,
    IPV6,
}

impl IPType {
    /// The name an address kind is shown with: `IPv4` or `IPv6`.
    pub fn to_text(&self) -> (s: String)
        ensures
            s@ == (match self {
                IPType::IPV4 => "IPv4"@,
                IPType::IPV6 => "IPv6"@,
            }),
    {
        match self {
            IPType::IPV4 => String::from_str("IPv4"),
            IPType::IPV6 => String::from_str("IPv6"),
        }
    }
}

/// Whether a token is the `${timestamp}` placeholder.
pub open spec fn is_stamp(t: TokenView) -> bool {
    t matches TokenView::Var(n, _, _) && n == "timestamp"@
}

/// How many `${timestamp}` placeholders `ts` holds.
pub open spec fn stamp_count(ts: Seq<TokenView>) -> nat
    decreases ts.len(),
{
    if ts.len() == 0 {
        0
    } else {
        stamp_count(ts.drop_last()) + if is_stamp(ts.last()) { 1nat } else { 0nat }
    }
}

/// The text a token stands for, given the current addresses and, for a
/// `${timestamp}`, the Unix time read for it.
pub open spec fn token_text(t: TokenView, g: Gip, stamp: u64) -> Seq<char> {
    match t {
        TokenView::Text(s) => s,
        TokenView::Var(n, _, _) => if n == "ipv4"@ {
            g.ipv4@
        } else if n == "ipv6"@ {
            g.ipv6@
        } else if n == "timestamp"@ {
            decimal(stamp as nat)
        } else {
            n
        },
    }
}

/// The text the tokens `ts` stand for; `stamps` are the Unix times read
/// for the `${timestamp}` placeholders, in order.
pub open spec fn render(ts: Seq<TokenView>, g: Gip, stamps: Seq<u64>) -> Seq<char>
    decreases ts.len(),
{
    if ts.len() == 0 {
        Seq::empty()
    } else {
        render(ts.drop_last(), g, stamps) + token_text(ts.last(), g, stamps[stamp_count(ts.drop_last()) as int])
    }
}

/// The current time (std's `SystemTime::now`).
#[verifier::external_type_specification]
#[verifier::external_body]
pub struct ExSystemTime(SystemTime);

/// Reads the system clock (std's `SystemTime::now`); what comes back
/// depends on the time, so nothing is stated of it.
#[verifier::external_body]
fn system_time_now() -> SystemTime {
    SystemTime::now()
}

/// An error of std's `SystemTime::duration_since`.
#[verifier::external_type_specification]
#[verifier::external_body]
pub struct ExSystemTimeError(SystemTimeError);

/// The time from the Unix epoch to `t` (std's `SystemTime::duration_since`
/// with `UNIX_EPOCH`), or its error when `t` lies before the epoch. The
/// clock value is opaque here, so nothing is stated of the result.
#[verifier::external_body]
fn duration_since_epoch(t: &SystemTime) -> Result<Duration, SystemTimeError> {
    t.duration_since(UNIX_EPOCH)
}

/// The whole seconds of a duration (std's `Duration::as_secs`); the
/// duration is opaque here, so nothing is stated of the result.
#[verifier::external_body]
fn whole_secs(d: &Duration) -> u64 {
    d.as_secs()
}

/// The message of a clock error (its `Display`, through `to_string`).
#[verifier::external_body]
fn time_error_text(e: &SystemTimeError) -> String {
    e.to_string()
}

/// The current Unix time in seconds, or the clock's error message.
pub fn unix_timestamp() -> Result<u64, String> {
    let now = system_time_now();
    match duration_since_epoch(&now) {
        Ok(d) => Ok(whole_secs(&d)),
        Err(e) => Err(time_error_text(&e)),
    }
}

fn is_named(name: &String, lit: &str) -> (b: bool)
    ensures
        b == (name@ == lit@),
{
    let other = String::from_str(lit);
    *name == other
}

fn token_is_stamp(t: &Token) -> (b: bool)
    ensures
        b == is_stamp(t@),
{
    match t {
        Token::Text(_) => false,
        Token::Var(n, _, _) => is_named(n, "timestamp"),
    }
}

proof fn lemma_render_step(ts: Seq<TokenView>, i: int, g: Gip, stamps: Seq<u64>)
    requires
        0 <= i < ts.len(),
    ensures
        render(ts.take(i + 1), g, stamps) == render(ts.take(i), g, stamps)
            + token_text(ts[i], g, stamps[stamp_count(ts.take(i)) as int]),
        stamp_count(ts.take(i + 1)) == stamp_count(ts.take(i)) + if is_stamp(ts[i]) { 1nat } else { 0nat },
{
    assert(ts.take(i + 1).drop_last() == ts.take(i));
    assert(ts.take(i + 1).last() == ts[i]);
}

/// The text the tokens stand for, with the given addresses and the Unix
/// times `stamps` for the `${timestamp}` placeholders, in order.
pub fn resolve_tokens(tokens: &Vec<Token>, gip: &Gip, stamps: &Vec<u64>) -> (s: String)
    requires
        stamps@.len() >= stamp_count(token_views(tokens@)),
    ensures
        s@ == render(token_views(tokens@), *gip, stamps@),
{
    let ghost ts = token_views(tokens@);
    let mut out = String::new();
    let mut i: usize = 0;
    let mut k: usize = 0;
    assert(ts.take(0) == Seq::<TokenView>::empty());
    while i < tokens.len()
        invariant
            i <= tokens.len(),
            ts == token_views(tokens@),
            ts.len() == tokens@.len(),
            stamps@.len() >= stamp_count(ts),
            k == stamp_count(ts.take(i as int)),
            out@ == render(ts.take(i as int), *gip, stamps@),
        decreases tokens.len() - i,
    {
        proof {
            lemma_render_step(ts, i as int, *gip, stamps@);
            lemma_stamp_count_prefix(ts, i as int + 1);
        }
        assert(ts[i as int] == tokens@[i as int]@);
        match &tokens[i] {
            Token::Text(t) => {
                out.append(t.as_str());
            },
            Token::Var(n, _, _) => {
                proof {
                    reveal_strlit("ipv4");
                    reveal_strlit("ipv6");
                    reveal_strlit("timestamp");
                    assert("ipv4"@.len() == 4);
                    assert("ipv6"@.len() == 4);
                    assert("timestamp"@.len() == 9);
                }
                assert(is_stamp(ts[i as int]) == (n@ == "timestamp"@));
                if is_named(n, "ipv4") {
                    assert(n@ != "timestamp"@);
                    out.append(gip.ipv4.as_str());
                } else if is_named(n, "ipv6") {
                    assert(n@ != "timestamp"@);
                    out.append(gip.ipv6.as_str());
                } else if is_named(n, "timestamp") {
                    assert(k < stamps.len());
                    push_decimal(&mut out, stamps[k]);
                    k = k + 1;
                } else {
                    out.append(n.as_str());
                }
            },
        }
        i = i + 1;
    }
    assert(ts.take(tokens.len() as int) == ts);
    out
}

proof fn lemma_stamp_count_prefix(ts: Seq<TokenView>, j: int)
    requires
        0 <= j <= ts.len(),
    ensures
        stamp_count(ts.take(j)) <= stamp_count(ts),
    decreases ts.len() - j,
{
    if j < ts.len() {
        lemma_stamp_count_prefix(ts, j + 1);
        assert(ts.take(j + 1).drop_last() == ts.take(j));
    } else {
        assert(ts.take(j) == ts);
    }
}

/// What resolving the placeholder text `content` with the addresses `g`
/// may give: the general error `parse` reports for a malformed text;
/// otherwise the text the tokens stand for, with some Unix time for each
/// `${timestamp}`, or, only where there is a `${timestamp}`, the clock's
/// failure.
pub open spec fn resolves_to(content: Seq<char>, g: Gip, r: Result<String, Error>) -> bool {
    match parse_result(content) {
        Err(m) => r matches Err(Error::General(msg)) && msg@ == m,
        Ok(ts) => match r {
            Ok(s) => exists|stamps: Seq<u64>|
                stamps.len() == stamp_count(ts) && s@ == #[trigger] render(ts, g, stamps),
            Err(e) => stamp_count(ts) > 0 && (e matches Error::General(msg)
                && exists|t: Seq<char>| msg@ == "get timestamp fail: "@ + t),
        },
    }
}

/// Replaces the placeholders of `content`: `${ipv4}` and `${ipv6}` by the
/// addresses in `gip`, `${timestamp}` by the Unix time in seconds (the
/// clock is read once for each), any other `${name}` by `name`, and `$$`
/// by `$`. Fails where the text is malformed, with the message `parse`
/// gives, or where the clock cannot be read.
pub fn placeholder_resolve(content: &str, gip: &Gip) -> (r: Result<String, Error>)
    ensures
        resolves_to(content@, *gip, r),
{
    let tokens = match parse(content) {
        Ok(t) => t,
        Err(e) => {
            assert(parse_result(content@) is Err);
            return Err(e);
        },
    };
    let ghost ts = token_views(tokens@);
    let mut stamps: Vec<u64> = Vec::new();
    let mut i: usize = 0;
    assert(ts.take(0) == Seq::<TokenView>::empty());
    while i < tokens.len()
        invariant
            i <= tokens.len(),
            ts == token_views(tokens@),
            ts.len() == tokens@.len(),
            stamps@.len() == stamp_count(ts.take(i as int)),
            parse_result(content@) == Ok::<Seq<TokenView>, Seq<char>>(ts),
        decreases tokens.len() - i,
    {
        proof {
            lemma_render_step(ts, i as int, *gip, stamps@);
        }
        assert(ts[i as int] == tokens@[i as int]@);
        if token_is_stamp(&tokens[i]) {
            match unix_timestamp() {
                Ok(t) => stamps.push(t),
                Err(m) => {
                    proof {
                        lemma_stamp_count_prefix(ts, i as int + 1);
                    }
                    let msg = String::from_str("get timestamp fail: ").concat(m.as_str());
                    assert(msg@ == "get timestamp fail: "@ + m@);
                    return Err(Error::General(msg));
                },
            }
        }
        i = i + 1;
    }
    assert(ts.take(tokens.len() as int) == ts);
    let s = resolve_tokens(&tokens, gip, &stamps);
    assert(stamps@.len() == stamp_count(ts) && s@ == render(ts, *gip, stamps@));
    Ok(s)
}

/// `t` with every `$` doubled: the placeholder text that stands for `t`.
pub open spec fn escape(t: Seq<char>) -> Seq<char>
    decreases t.len(),
{
    if t.len() == 0 {
        Seq::empty()
    } else {
        (if t[0] == '$' { seq!['$', '$'] } else { seq![t[0]] }) + escape(t.drop_first())
    }
}

/// The literal pieces of the characters of `t`.
pub open spec fn char_pieces(t: Seq<char>) -> Seq<Piece> {
    t.map_values(|c: char| char_piece(c))
}

proof fn lemma_scan_escaped(t: Seq<char>)
    ensures
        scan(escape(t)) == Ok::<Seq<Piece>, ScanError>(char_pieces(t)),
    decreases t.len(),
{
    lemma_empty();
    assert(char_pieces(Seq::<char>::empty()) =~= Seq::<Piece>::empty());
    if t.len() == 0 {
        assert(t =~= Seq::<char>::empty());
    }
    if t.len() > 0 {
        let s = escape(t);
        let rest = t.drop_first();
        lemma_scan_escaped(rest);
        assert(char_pieces(t) =~= seq![char_piece(t[0])] + char_pieces(rest));
        if t[0] == '$' {
            assert(s.skip(2) =~= escape(rest));
            assert(s[0] == '$' && s[1] == '$');
            lemma_scan_escape(s);
            assert(seq![Piece::Char('$')] + char_pieces(rest) == char_pieces(t));
        } else {
            assert(s.drop_first() =~= escape(rest));
            assert(s[0] == t[0]);
            lemma_scan_char(s);
            assert(seq![Piece::Char(s[0])] + char_pieces(rest) == char_pieces(t));
        }
    }
}

proof fn lemma_group_chars(t: Seq<char>)
    ensures
        group(char_pieces(t)) == (Seq::<TokenView>::empty(), t),
    decreases t.len(),
{
    lemma_empty();
    assert(char_pieces(Seq::<char>::empty()) =~= Seq::<Piece>::empty());
    if t.len() == 0 {
        assert(t =~= Seq::<char>::empty());
    }
    if t.len() > 0 {
        lemma_group_chars(t.drop_last());
        assert(char_pieces(t) =~= char_pieces(t.drop_last()).push(char_piece(t.last())));
        lemma_group_char(char_pieces(t.drop_last()), t.last());
        assert(t.drop_last().push(t.last()) =~= t);
    }
}

/// Doubling every `$` of a text gives a placeholder text that stands for
/// the text itself: it holds no placeholder, and it resolves to the text
/// whatever the addresses and the clock.
pub proof fn law_escaped_text_resolves_to_itself(t: Seq<char>, g: Gip, stamps: Seq<u64>)
    ensures
        parse_result(escape(t)) matches Ok(ts) && stamp_count(ts) == 0 && render(ts, g, stamps) == t,
{
    lemma_scan_escaped(t);
    lemma_group_chars(t);
    let ts = tokens_of(char_pieces(t));
    if t.len() > 0 {
        assert(ts == seq![TokenView::Text(t)]);
        assert(ts.drop_last() =~= Seq::<TokenView>::empty());
        assert(render(Seq::<TokenView>::empty(), g, stamps) == Seq::<char>::empty());
        assert(stamp_count(Seq::<TokenView>::empty()) == 0);
        assert(render(ts, g, stamps) == Seq::<char>::empty() + t);
        assert(Seq::<char>::empty() + t == t);
    } else {
        assert(t =~= Seq::<char>::empty());
    }
}

proof fn lemma_escape_plain(t: Seq<char>)
    requires
        forall|i: int| 0 <= i < t.len() ==> t[i] != '$',
    ensures
        escape(t) == t,
    decreases t.len(),
{
    if t.len() > 0 {
        lemma_escape_plain(t.drop_first());
        assert(seq![t[0]] + t.drop_first() =~= t);
    }
}

/// A text without `$` is a placeholder text that stands for itself.
pub proof fn law_plain_text_resolves_to_itself(t: Seq<char>, g: Gip, stamps: Seq<u64>)
    requires
        forall|i: int| 0 <= i < t.len() ==> t[i] != '$',
    ensures
        parse_result(t) matches Ok(ts) && stamp_count(ts) == 0 && render(ts, g, stamps) == t,
{
    lemma_escape_plain(t);
    law_escaped_text_resolves_to_itself(t, g, stamps);
}

proof fn lemma_width_concat(a: Seq<Piece>, b: Seq<Piece>)
    ensures
        width(a + b) == width(a) + width(b),
    decreases b.len(),
{
    if b.len() == 0 {
        assert(a + b =~= a);
        assert(b =~= Seq::<Piece>::empty());
        lemma_empty();
    } else {
        lemma_width_concat(a, b.drop_last());
        assert(a + b =~= (a + b.drop_last()).push(b.last()));
        assert(b =~= b.drop_last().push(b.last()));
        lemma_width_push(a + b.drop_last(), b.last());
        lemma_width_push(b.drop_last(), b.last());
    }
}

proof fn lemma_prepend_concat(a: Seq<Piece>, b: Seq<Piece>, r: Result<Seq<Piece>, ScanError>)
    ensures
        prepend(a, prepend(b, r)) == prepend(a + b, r),
{
    lemma_width_concat(a, b);
    if let Ok(q) = r {
        assert(a + (b + q) =~= (a + b) + q);
    }
}

/// Scanning a text whose `$` are doubled, followed by anything, gives the
/// text's literal characters in front of what the rest scans to.
proof fn lemma_scan_escaped_prefix(x: Seq<char>, rest: Seq<char>)
    ensures
        scan(escape(x) + rest) == prepend(char_pieces(x), scan(rest)),
    decreases x.len(),
{
    lemma_empty();
    if x.len() == 0 {
        assert(escape(x) =~= Seq::<char>::empty());
        assert(escape(x) + rest =~= rest);
        assert(char_pieces(x) =~= Seq::<Piece>::empty());
        if let Ok(q) = scan(rest) {
            assert(Seq::<Piece>::empty() + q =~= q);
        }
    } else {
        let s = escape(x) + rest;
        let tail = x.drop_first();
        lemma_scan_escaped_prefix(tail, rest);
        assert(char_pieces(x) =~= seq![char_piece(x[0])] + char_pieces(tail));
        if x[0] == '$' {
            assert(s.skip(2) =~= escape(tail) + rest);
            assert(s[0] == '$' && s[1] == '$');
            lemma_scan_escape(s);
        } else {
            assert(s.drop_first() =~= escape(tail) + rest);
            assert(s[0] == x[0]);
            lemma_scan_char(s);
        }
        lemma_prepend_concat(seq![char_piece(x[0])], char_pieces(tail), scan(rest));
    }
}

proof fn lemma_first_index_after(n: Seq<char>, c: char, rest: Seq<char>)
    requires
        forall|i: int| 0 <= i < n.len() ==> n[i] != c,
    ensures
        first_index(n + seq![c] + rest, c) == Some(n.len()),
    decreases n.len(),
{
    reveal(first_index);
    let t = n + seq![c] + rest;
    if n.len() == 0 {
        assert(t[0] == c);
    } else {
        assert(t[0] == n[0]);
        assert(t.drop_first() =~= n.drop_first() + seq![c] + rest);
        lemma_first_index_after(n.drop_first(), c, rest);
    }
}

/// A placeholder followed by a text whose `$` are doubled scans to the
/// placeholder's piece and the text's characters.
proof fn lemma_scan_var_then_text(n: Seq<char>, y: Seq<char>)
    requires
        forall|i: int| 0 <= i < n.len() ==> n[i] != '}',
    ensures
        scan(seq!['$', '{'] + n + seq!['}'] + escape(y))
            == Ok::<Seq<Piece>, ScanError>(seq![Piece::Var(n)] + char_pieces(y)),
{
    let s = seq!['$', '{'] + n + seq!['}'] + escape(y);
    assert(s.skip(2) =~= n + seq!['}'] + escape(y));
    lemma_first_index_after(n, '}', escape(y));
    assert(s[0] == '$' && s[1] == '{');
    lemma_scan_var(s, n.len());
    assert(s.subrange(2, 2 + n.len() as int) =~= n);
    assert(s.skip(3 + n.len() as int) =~= escape(y));
    lemma_scan_escaped(y);
    lemma_empty();
}

proof fn lemma_group_append_chars(a: Seq<Piece>, y: Seq<char>)
    ensures
        group(a + char_pieces(y)) == (group(a).0, group(a).1 + y),
    decreases y.len(),
{
    if y.len() == 0 {
        assert(char_pieces(y) =~= Seq::<Piece>::empty());
        assert(a + char_pieces(y) =~= a);
        assert(group(a).1 + y =~= group(a).1);
    } else {
        lemma_group_append_chars(a, y.drop_last());
        assert(a + char_pieces(y) =~= (a + char_pieces(y.drop_last())).push(char_piece(y.last())));
        lemma_group_char(a + char_pieces(y.drop_last()), y.last());
        assert((group(a).1 + y.drop_last()).push(y.last()) =~= group(a).1 + y);
    }
}

proof fn lemma_render_push(ts: Seq<TokenView>, t: TokenView, g: Gip, stamps: Seq<u64>)
    ensures
        render(ts.push(t), g, stamps) == render(ts, g, stamps) + token_text(t, g, stamps[stamp_count(ts) as int]),
        stamp_count(ts.push(t)) == stamp_count(ts) + if is_stamp(t) { 1nat } else { 0nat },
{
    assert(ts.push(t).drop_last() =~= ts);
    assert(ts.push(t).last() == t);
}

/// What a placeholder other than `${timestamp}` stands for: the current
/// IPv4 or IPv6 address, or else its own name.
pub open spec fn var_text(n: Seq<char>, g: Gip) -> Seq<char> {
    if n == "ipv4"@ {
        g.ipv4@
    } else if n == "ipv6"@ {
        g.ipv6@
    } else {
        n
    }
}

/// A text, one placeholder other than `${timestamp}`, and another text
/// (each text with its `$` doubled) resolve, whatever the clock, to the
/// first text, what the placeholder stands for, and the second text.
pub proof fn law_placeholder_resolves(x: Seq<char>, n: Seq<char>, y: Seq<char>, g: Gip, r: Result<String, Error>)
    requires
        forall|i: int| 0 <= i < n.len() ==> n[i] != '}',
        n != "timestamp"@,
        resolves_to(escape(x) + seq!['$', '{'] + n + seq!['}'] + escape(y), g, r),
    ensures
        r matches Ok(s) && s@ == x + var_text(n, g) + y,
{
    let whole = escape(x) + seq!['$', '{'] + n + seq!['}'] + escape(y);
    let back = seq!['$', '{'] + n + seq!['}'] + escape(y);
    assert(whole =~= escape(x) + back);
    lemma_scan_escaped_prefix(x, back);
    lemma_scan_var_then_text(n, y);
    let cx = char_pieces(x);
    let ps = cx + (seq![Piece::Var(n)] + char_pieces(y));
    assert(scan(whole) == Ok::<Seq<Piece>, ScanError>(ps));
    assert(ps =~= cx.push(Piece::Var(n)) + char_pieces(y));
    lemma_group_append_chars(cx.push(Piece::Var(n)), y);
    lemma_group_var(cx, n);
    lemma_group_chars(x);
    let w = width(cx);
    let v = TokenView::Var(n, w + 1, w + n.len() + 2);
    let t0 = flush(Seq::<TokenView>::empty(), x);
    let t1 = t0.push(v);
    assert(group(cx.push(Piece::Var(n))) == (t1, Seq::<char>::empty()));
    assert(Seq::<char>::empty() + y =~= y);
    let ts = flush(t1, y);
    assert(parse_result(whole) == Ok::<Seq<TokenView>, Seq<char>>(ts));
    assert forall|stamps: Seq<u64>| #[trigger] render(ts, g, stamps) == x + var_text(n, g) + y
        && stamp_count(ts) == 0 by {
        assert(render(Seq::<TokenView>::empty(), g, stamps) == Seq::<char>::empty());
        assert(stamp_count(Seq::<TokenView>::empty()) == 0);
        if x.len() > 0 {
            lemma_render_push(Seq::<TokenView>::empty(), TokenView::Text(x), g, stamps);
            assert(Seq::<char>::empty() + x =~= x);
        } else {
            assert(x =~= Seq::<char>::empty());
        }
        assert(render(t0, g, stamps) == x && stamp_count(t0) == 0);
        lemma_render_push(t0, v, g, stamps);
        assert(token_text(v, g, stamps[0]) == var_text(n, g));
        if y.len() > 0 {
            lemma_render_push(t1, TokenView::Text(y), g, stamps);
        } else {
            assert(x + var_text(n, g) + y =~= x + var_text(n, g));
        }
    }
    match r {
        Ok(s) => {
            let stamps = choose|stamps: Seq<u64>| stamps.len() == stamp_count(ts) && s@ == #[trigger] render(ts, g, stamps);
            assert(render(ts, g, stamps) == x + var_text(n, g) + y);
        },
        Err(_) => {
            assert(render(ts, g, Seq::<u64>::empty()) == x + var_text(n, g) + y);
        },
    }
}

/// The name of the placeholder that stands for an address kind.
pub open spec fn address_placeholder(iptype: IPType) -> Seq<char> {
    match iptype {
        IPType::IPV4 => "ipv4"@,
        IPType::IPV6 => "ipv6"@,
    }
}

/// Once an address is recorded, a record target made of a text, the
/// placeholder of that address kind and another text (each text with its
/// `$` doubled) resolves to the first text, the recorded address and the
/// second text: what a target resolves to follows the address last
/// recorded.
pub proof fn law_recorded_address_is_resolved(
    g0: Gip,
    g1: Gip,
    iptype: IPType,
    addr: Seq<char>,
    x: Seq<char>,
    y: Seq<char>,
    r: Result<String, Error>,
)
    requires
        ip_updated(g0, iptype, addr, g1),
        resolves_to(escape(x) + seq!['$', '{'] + address_placeholder(iptype) + seq!['}'] + escape(y), g1, r),
    ensures
        r matches Ok(s) && s@ == x + addr + y,
{
    reveal_strlit("ipv4");
    reveal_strlit("ipv6");
    reveal_strlit("timestamp");
    let n = address_placeholder(iptype);
    assert(n.len() == 4);
    assert("timestamp"@.len() == 9);
    assert("ipv4"@[3] != "ipv6"@[3]);
    assert forall|i: int| 0 <= i < n.len() implies n[i] != '}' by {
        assert(n[i] != '}');
    }
    law_placeholder_resolves(x, n, y, g1, r);
}

/// The placeholder text a piece is read from: a literal character with
/// its `$` doubled, or a placeholder `${name}`.
pub open spec fn piece_source(p: Piece) -> Seq<char> {
    match p {
        Piece::Char(c) => escape(seq![c]),
        Piece::Var(n) => seq!['$', '{'] + n + seq!['}'],
    }
}

/// The placeholder text the pieces `ps` are read from.
pub open spec fn unscan(ps: Seq<Piece>) -> Seq<char>
    decreases ps.len(),
{
    if ps.len() == 0 {
        Seq::empty()
    } else {
        unscan(ps.drop_last()) + piece_source(ps.last())
    }
}

/// The placeholder text a token is written as: a text with its `$`
/// doubled, or a placeholder `${name}`.
pub open spec fn token_source(t: TokenView) -> Seq<char> {
    match t {
        TokenView::Text(x) => escape(x),
        TokenView::Var(n, _, _) => seq!['$', '{'] + n + seq!['}'],
    }
}

/// The placeholder text the tokens `ts` are written as, token by token.
pub open spec fn unparse(ts: Seq<TokenView>) -> Seq<char>
    decreases ts.len(),
{
    if ts.len() == 0 {
        Seq::empty()
    } else {
        unparse(ts.drop_last()) + token_source(ts.last())
    }
}

proof fn lemma_escape_concat(a: Seq<char>, b: Seq<char>)
    ensures
        escape(a + b) == escape(a) + escape(b),
    decreases a.len(),
{
    if a.len() == 0 {
        assert(a + b =~= b);
        assert(escape(a) =~= Seq::<char>::empty());
        assert(escape(a) + escape(b) =~= escape(b));
    } else {
        lemma_escape_concat(a.drop_first(), b);
        assert((a + b).drop_first() =~= a.drop_first() + b);
        assert((a + b)[0] == a[0]);
        let h = if a[0] == '$' { seq!['$', '$'] } else { seq![a[0]] };
        assert(escape(a + b) == h + escape(a.drop_first() + b));
        assert(escape(a) == h + escape(a.drop_first()));
        assert(h + (escape(a.drop_first()) + escape(b)) =~= (h + escape(a.drop_first())) + escape(b));
    }
}

proof fn lemma_escape_one(c: char)
    ensures
        escape(seq![c]) == if c == '$' { seq!['$', '$'] } else { seq![c] },
{
    assert(seq![c].drop_first() =~= Seq::<char>::empty());
    assert(escape(Seq::<char>::empty()) == Seq::<char>::empty());
    assert(seq![c][0] == c);
    let h = if c == '$' { seq!['$', '$'] } else { seq![c] };
    assert(h + Seq::<char>::empty() =~= h);
}

proof fn lemma_unscan_prepend(p: Piece, q: Seq<Piece>)
    ensures
        unscan(seq![p] + q) == piece_source(p) + unscan(q),
    decreases q.len(),
{
    if q.len() == 0 {
        assert(seq![p] + q =~= seq![p]);
        assert(seq![p].drop_last() =~= Seq::<Piece>::empty());
        assert(seq![p].last() == p);
        assert(unscan(Seq::<Piece>::empty()) == Seq::<char>::empty());
        assert(Seq::<char>::empty() + piece_source(p) =~= piece_source(p));
        assert(piece_source(p) + Seq::<char>::empty() =~= piece_source(p));
    } else {
        lemma_unscan_prepend(p, q.drop_last());
        assert((seq![p] + q).drop_last() =~= seq![p] + q.drop_last());
        assert((seq![p] + q).last() == q.last());
        assert(piece_source(p) + (unscan(q.drop_last()) + piece_source(q.last()))
            =~= (piece_source(p) + unscan(q.drop_last())) + piece_source(q.last()));
    }
}

/// A text that scans is the text its pieces are read from.
proof fn lemma_scan_unscan(s: Seq<char>)
    ensures
        scan(s) matches Ok(ps) ==> unscan(ps) == s,
    decreases s.len(),
{
    lemma_empty();
    if s.len() == 0 {
        assert(s =~= Seq::<char>::empty());
    } else if s[0] != '$' {
        let rest = s.drop_first();
        lemma_scan_char(s);
        lemma_scan_unscan(rest);
        if let Ok(q) = scan(rest) {
            lemma_unscan_prepend(Piece::Char(s[0]), q);
            lemma_escape_one(s[0]);
            assert(s =~= seq![s[0]] + rest);
        }
    } else if s.len() == 1 {
        lemma_scan_errors(s);
    } else if s[1] == '$' {
        let rest = s.skip(2);
        lemma_scan_escape(s);
        lemma_scan_unscan(rest);
        if let Ok(q) = scan(rest) {
            lemma_unscan_prepend(Piece::Char('$'), q);
            lemma_escape_one('$');
            assert(s =~= seq!['$', '$'] + rest);
        }
    } else if s[1] != '{' {
        lemma_scan_errors(s);
    } else {
        lemma_first_index_bound(s.skip(2), '}');
        match first_index(s.skip(2), '}') {
            None => {
                lemma_scan_errors(s);
            },
            Some(j) => {
                let n = s.subrange(2, 2 + j as int);
                let rest = s.skip(3 + j as int);
                lemma_scan_var(s, j);
                lemma_scan_unscan(rest);
                if let Ok(q) = scan(rest) {
                    lemma_unscan_prepend(Piece::Var(n), q);
                    assert(s.skip(2)[j as int] == s[2 + j as int]);
                    assert(s =~= seq!['$', '{'] + n + seq!['}'] + rest);
                }
            },
        }
    }
}

proof fn lemma_unparse_push(ts: Seq<TokenView>, t: TokenView)
    ensures
        unparse(ts.push(t)) == unparse(ts) + token_source(t),
{
    assert(ts.push(t).drop_last() =~= ts);
    assert(ts.push(t).last() == t);
}

proof fn lemma_unparse_flush(t: Seq<TokenView>, b: Seq<char>)
    ensures
        unparse(flush(t, b)) == unparse(t) + escape(b),
{
    if b.len() > 0 {
        lemma_unparse_push(t, TokenView::Text(b));
    } else {
        assert(b =~= Seq::<char>::empty());
        assert(escape(b) == Seq::<char>::empty());
        assert(unparse(t) + escape(b) =~= unparse(t));
    }
}

/// Grouping keeps the text: the completed tokens written out, followed by
/// the pending text with its `$` doubled, are the text the pieces are read
/// from.
proof fn lemma_group_unparse(ps: Seq<Piece>)
    ensures
        unparse(group(ps).0) + escape(group(ps).1) == unscan(ps),
    decreases ps.len(),
{
    lemma_empty();
    if ps.len() == 0 {
        assert(ps =~= Seq::<Piece>::empty());
        assert(unparse(Seq::<TokenView>::empty()) == Seq::<char>::empty());
        assert(escape(Seq::<char>::empty()) == Seq::<char>::empty());
        assert(Seq::<char>::empty() + Seq::<char>::empty() =~= Seq::<char>::empty());
    } else {
        let a = ps.drop_last();
        let p = ps.last();
        lemma_group_unparse(a);
        assert(ps =~= a.push(p));
        let (t, b) = group(a);
        match p {
            Piece::Char(c) => {
                lemma_group_char(a, c);
                assert(b.push(c) =~= b + seq![c]);
                lemma_escape_concat(b, seq![c]);
                assert(unparse(t) + (escape(b) + escape(seq![c])) =~= (unparse(t) + escape(b)) + escape(seq![c]));
            },
            Piece::Var(n) => {
                lemma_group_var(a, n);
                let v = TokenView::Var(n, width(a) + 1, width(a) + n.len() + 2);
                lemma_unparse_push(flush(t, b), v);
                lemma_unparse_flush(t, b);
                assert(escape(Seq::<char>::empty()) == Seq::<char>::empty());
                assert(unparse(flush(t, b).push(v)) + Seq::<char>::empty() =~= unparse(flush(t, b).push(v)));
            },
        }
    }
}

/// Parsing loses nothing: the tokens of a text, written back out (texts
/// with their `$` doubled, placeholders as `${name}`), give the text again.
pub proof fn law_parse_round_trip(s: Seq<char>)
    ensures
        parse_result(s) matches Ok(ts) ==> unparse(ts) == s,
{
    lemma_scan_unscan(s);
    if let Ok(ps) = scan(s) {
        lemma_group_unparse(ps);
        lemma_unparse_flush(group(ps).0, group(ps).1);
    }
}

} // verus!
