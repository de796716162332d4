//! Text helpers: character sequences, decimal rendering, trimming and
//! splitting, each with its mathematical meaning.
use vstd::prelude::*;
use vstd::string::StringExecFns;

verus! {

/// Appends one character to a string (std's `String::push`).
#[verifier::external_body]
pub fn string_push(s: &mut String, c: char)
    ensures
        final(s)@ == old(s)@.push(c),
{
    s.push(c);
}

/// The characters of `s`, in order.
pub fn chars_of(s: &str) -> (v: Vec<char>)
    ensures
        v@ == s@,
{
    let mut v: Vec<char> = Vec::new();
    for c in it: s.chars()
        invariant
            v@ == it.seq().take(it.index() as int),
    {
        v.push(c);
    }
    v
}

/// The string made of the characters of `v`.
pub fn string_of(v: &Vec<char>) -> (s: String)
    ensures
        s@ == v@,
{
    let mut s = String::new();
    let mut i: usize = 0;
    while i < v.len()
        invariant
            i <= v.len(),
            s@ == v@.take(i as int),
        decreases v.len() - i,
    {
        string_push(&mut s, v[i]);
        assert(v@.take(i + 1) == v@.take(i as int).push(v@[i as int]));
        i = i + 1;
    }
    assert(v@.take(v.len() as int) == v@);
    s
}


/// The character of a decimal digit.
pub open spec fn digit_char(d: nat) -> char {
    if d == 0 { '0' }
    else if d == 1 { '1' }
    else if d == 2 { '2' }
    else if d == 3 { '3' }
    else if d == 4 { '4' }
    else if d == 5 { '5' }
    else if d == 6 { '6' }
    else if d == 7 { '7' }
    else if d == 8 { '8' }
    else { '9' }
}

/// The decimal notation of `n`, most significant digit first, without
/// leading zeros (`0` is written `"0"`).
pub open spec fn decimal(n: nat) -> Seq<char>
    decreases n,
{
    if n < 10 {
        seq![digit_char(n)]
    } else {
        decimal(n / 10).push(digit_char(n % 10))
    }
}

fn digit_to_char(d: u64) -> (c: char)
    requires
        d < 10,
    ensures
        c == digit_char(d as nat),
{
    if d == 0 { '0' }
    else if d == 1 { '1' }
    else if d == 2 { '2' }
    else if d == 3 { '3' }
    else if d == 4 { '4' }
    else if d == 5 { '5' }
    else if d == 6 { '6' }
    else if d == 7 { '7' }
    else if d == 8 { '8' }
    else { '9' }
}

/// Appends the decimal notation of `n` to `out`.
pub fn push_decimal(out: &mut String, n: u64)
    ensures
        final(out)@ == old(out)@ + decimal(n as nat),
    decreases n,
{
    if n >= 10 {
        push_decimal(out, n / 10);
    }
    string_push(out, digit_to_char(n % 10));
    assert(old(out)@ + decimal(n as nat) == old(out)@ + (if n >= 10 { decimal((n / 10) as nat) } else { seq![] }).push(digit_char((n % 10) as nat)));
}

/// The decimal notation of `n` as a new string.
pub fn decimal_string(n: u64) -> (s: String)
    ensures
        s@ == decimal(n as nat),
{
    let mut s = String::new();
    push_decimal(&mut s, n);
    s
}

/// Whether `c` has the Unicode `White_Space` property, the set that
/// `char::is_whitespace` and `str::trim` use.
pub open spec fn is_white_space(c: char) -> bool {
    let x = c as int;
    ||| 0x09 <= x <= 0x0d
    ||| x == 0x20
    ||| x == 0x85
    ||| x == 0xa0
    ||| x == 0x1680
    ||| 0x2000 <= x <= 0x200a
    ||| x == 0x2028
    ||| x == 0x2029
    ||| x == 0x202f
    ||| x == 0x205f
    ||| x == 0x3000
}

/// `s` without its leading white space.
pub open spec fn trim_start(s: Seq<char>) -> Seq<char>
    decreases s.len(),
{
    if s.len() > 0 && is_white_space(s[0]) {
        trim_start(s.drop_first())
    } else {
        s
    }
}

/// `s` without its trailing white space.
pub open spec fn trim_end(s: Seq<char>) -> Seq<char>
    decreases s.len(),
{
    if s.len() > 0 && is_white_space(s.last()) {
        trim_end(s.drop_last())
    } else {
        s
    }
}

/// `s` without leading and trailing white space.
pub open spec fn trim(s: Seq<char>) -> Seq<char> {
    trim_end(trim_start(s))
}

fn char_is_white_space(c: char) -> (b: bool)
    ensures
        b == is_white_space(c),
{
    let x = c as u32;
    (0x09 <= x && x <= 0x0d) || x == 0x20 || x == 0x85 || x == 0xa0 || x == 0x1680
        || (0x2000 <= x && x <= 0x200a) || x == 0x2028 || x == 0x2029 || x == 0x202f
        || x == 0x205f || x == 0x3000
}

/// `s` with leading and trailing white space removed.
pub fn trim_string(s: &str) -> (r: String)
    ensures
        r@ == trim(s@),
{
    let v = chars_of(s);
    let mut i: usize = 0;
    assert(v@.skip(0) == v@);
    while i < v.len() && char_is_white_space(v[i])
        invariant
            i <= v.len(),
            trim_start(v@) == trim_start(v@.skip(i as int)),
        decreases v.len() - i,
    {
        assert(v@.skip(i as int).drop_first() == v@.skip(i + 1));
        i = i + 1;
    }
    assert(trim_start(v@) == v@.skip(i as int));
    let mut j: usize = v.len();
    while j > i && char_is_white_space(v[j - 1])
        invariant
            i <= j <= v.len(),
            trim(v@) == trim_end(v@.subrange(i as int, j as int)),
        decreases j,
    {
        assert(v@.subrange(i as int, j as int).drop_last() == v@.subrange(i as int, j - 1));
        j = j - 1;
    }
    assert(trim(v@) == v@.subrange(i as int, j as int));
    let mut out: Vec<char> = Vec::new();
    let mut k: usize = i;
    while k < j
        invariant
            i <= k <= j <= v.len(),
            out@ == v@.subrange(i as int, k as int),
        decreases j - k,
    {
        out.push(v[k]);
        assert(v@.subrange(i as int, k + 1) == v@.subrange(i as int, k as int).push(v@[k as int]));
        k = k + 1;
    }
    string_of(&out)
}

/// Whether `c` is a visible ASCII character (`!` to `~`): letters,
/// digits and punctuation.
pub open spec fn is_ascii_visible(c: char) -> bool {
    0x21 <= c as int <= 0x7e
}

/// Whether `c` is an ASCII blank: a space, a tab, a line feed, a vertical
/// tab, a form feed or a carriage return.
pub open spec fn is_ascii_blank(c: char) -> bool {
    c as int == 0x20 || 0x09 <= c as int <= 0x0d
}

proof fn lemma_trim_start_blank_prefix(p: Seq<char>, r: Seq<char>)
    requires
        forall|i: int| 0 <= i < p.len() ==> is_ascii_blank(#[trigger] p[i]),
    ensures
        trim_start(p + r) == trim_start(r),
    decreases p.len(),
{
    if p.len() == 0 {
        assert(p + r =~= r);
    } else {
        assert((p + r)[0] == p[0]);
        assert((p + r).drop_first() =~= p.drop_first() + r);
        assert forall|i: int| 0 <= i < p.drop_first().len() implies is_ascii_blank(#[trigger] p.drop_first()[i]) by {
            assert(p.drop_first()[i] == p[i + 1]);
        }
        lemma_trim_start_blank_prefix(p.drop_first(), r);
    }
}

proof fn lemma_trim_end_blank_suffix(r: Seq<char>, q: Seq<char>)
    requires
        forall|i: int| 0 <= i < q.len() ==> is_ascii_blank(#[trigger] q[i]),
    ensures
        trim_end(r + q) == trim_end(r),
    decreases q.len(),
{
    if q.len() == 0 {
        assert(r + q =~= r);
    } else {
        assert((r + q).last() == q.last());
        assert(q.last() == q[q.len() - 1]);
        assert((r + q).drop_last() =~= r + q.drop_last());
        assert forall|i: int| 0 <= i < q.drop_last().len() implies is_ascii_blank(#[trigger] q.drop_last()[i]) by {
            assert(q.drop_last()[i] == q[i]);
        }
        lemma_trim_end_blank_suffix(r, q.drop_last());
    }
}

/// Trimming strips blanks and keeps the text between them: a text that
/// begins and ends with a visible ASCII character (an address, say), with
/// any ASCII spaces, tabs and line breaks before and after it, trims to
/// exactly that text. In particular, no letter, digit or punctuation at
/// either end is ever removed.
pub proof fn law_trim_strips_blanks_only(p: Seq<char>, t: Seq<char>, q: Seq<char>)
    requires
        forall|i: int| 0 <= i < p.len() ==> is_ascii_blank(#[trigger] p[i]),
        forall|i: int| 0 <= i < q.len() ==> is_ascii_blank(#[trigger] q[i]),
        t.len() > 0,
        is_ascii_visible(t[0]),
        is_ascii_visible(t.last()),
    ensures
        trim(p + t + q) == t,
{
    assert(p + t + q =~= p + (t + q));
    lemma_trim_start_blank_prefix(p, t + q);
    assert((t + q)[0] == t[0]);
    assert(trim_start(t + q) == t + q);
    lemma_trim_end_blank_suffix(t, q);
    assert(trim_end(t) == t);
}

proof fn lemma_trim_start_skips(s: Seq<char>)
    ensures
        exists|a: int| 0 <= a <= s.len() && trim_start(s) == s.skip(a)
            && forall|i: int| 0 <= i < a ==> is_white_space(#[trigger] s[i]),
    decreases s.len(),
{
    if s.len() > 0 && is_white_space(s[0]) {
        lemma_trim_start_skips(s.drop_first());
        let a = choose|a: int| 0 <= a <= s.drop_first().len() && trim_start(s.drop_first()) == s.drop_first().skip(a)
            && forall|i: int| 0 <= i < a ==> is_white_space(#[trigger] s.drop_first()[i]);
        assert(s.drop_first().skip(a) =~= s.skip(a + 1));
        assert forall|i: int| 0 <= i < a + 1 implies is_white_space(#[trigger] s[i]) by {
            if i > 0 {
                assert(s[i] == s.drop_first()[i - 1]);
            }
        }
    } else {
        assert(s.skip(0) =~= s);
    }
}

proof fn lemma_trim_end_takes(s: Seq<char>)
    ensures
        exists|b: int| 0 <= b <= s.len() && trim_end(s) == s.take(b)
            && forall|i: int| b <= i < s.len() ==> is_white_space(#[trigger] s[i]),
    decreases s.len(),
{
    if s.len() > 0 && is_white_space(s.last()) {
        lemma_trim_end_takes(s.drop_last());
        let b = choose|b: int| 0 <= b <= s.drop_last().len() && trim_end(s.drop_last()) == s.drop_last().take(b)
            && forall|i: int| b <= i < s.drop_last().len() ==> is_white_space(#[trigger] s.drop_last()[i]);
        assert(s.drop_last().take(b) =~= s.take(b));
        assert forall|i: int| b <= i < s.len() implies is_white_space(#[trigger] s[i]) by {
            if i < s.len() - 1 {
                assert(s[i] == s.drop_last()[i]);
            }
        }
    } else {
        assert(s.take(s.len() as int) =~= s);
    }
}

/// Trimming removes characters only from the two ends, and only blank
/// ones: the result is a stretch of the text, and every character outside
/// it is a control character, a space or a character beyond ASCII, never
/// a visible ASCII character.
pub proof fn law_trim_removes_only_blank_ends(s: Seq<char>)
    ensures
        exists|a: int, b: int| 0 <= a <= b <= s.len() && trim(s) == s.subrange(a, b)
            && forall|i: int| 0 <= i < s.len() && (i < a || b <= i) ==> !is_ascii_visible(#[trigger] s[i]),
{
    lemma_trim_start_skips(s);
    let a = choose|a: int| 0 <= a <= s.len() && trim_start(s) == s.skip(a)
        && forall|i: int| 0 <= i < a ==> is_white_space(#[trigger] s[i]);
    let m = s.skip(a);
    lemma_trim_end_takes(m);
    let b = choose|b: int| 0 <= b <= m.len() && trim_end(m) == m.take(b)
        && forall|i: int| b <= i < m.len() ==> is_white_space(#[trigger] m[i]);
    assert(m.take(b) =~= s.subrange(a, a + b));
    assert forall|i: int| 0 <= i < s.len() && (i < a || a + b <= i) implies !is_ascii_visible(#[trigger] s[i]) by {
        if i < a {
            assert(is_white_space(s[i]));
        } else {
            assert(s[i] == m[i - a]);
            assert(is_white_space(m[i - a]));
        }
    }
}

/// The pieces of `s` between occurrences of `sep`, as `str::split` gives
/// them: every occurrence of `sep` ends one piece and starts the next, so
/// there is always one piece more than there are separators.
pub open spec fn split_on(s: Seq<char>, sep: char) -> Seq<Seq<char>>
    decreases s.len(),
{
    if s.len() == 0 {
        seq![Seq::<char>::empty()]
    } else {
        let parts = split_on(s.drop_last(), sep);
        if s.last() == sep {
            parts.push(Seq::<char>::empty())
        } else {
            parts.update(parts.len() - 1, parts.last().push(s.last()))
        }
    }
}

/// The views of a sequence of strings.
pub open spec fn views(v: Seq<String>) -> Seq<Seq<char>> {
    v.map_values(|x: String| x@)
}

proof fn lemma_split_on_nonempty(s: Seq<char>, sep: char)
    ensures
        split_on(s, sep).len() >= 1,
    decreases s.len(),
{
    if s.len() > 0 {
        lemma_split_on_nonempty(s.drop_last(), sep);
    }
}

/// The pieces of `s` between occurrences of `sep`.
pub fn split_string(s: &str, sep: char) -> (parts: Vec<String>)
    ensures
        views(parts@) == split_on(s@, sep),
{
    let v = chars_of(s);
    let mut parts: Vec<String> = Vec::new();
    let mut cur: Vec<char> = Vec::new();
    let mut i: usize = 0;
    while i < v.len()
        invariant
            i <= v.len(),
            views(parts@).push(cur@) == split_on(v@.take(i as int), sep),
        decreases v.len() - i,
    {
        let ghost before = v@.take(i as int);
        assert(v@.take(i + 1).drop_last() == before);
        proof { lemma_split_on_nonempty(before, sep); }
        let ghost old_parts = parts@;
        let ghost old_cur = cur@;
        if v[i] == sep {
            let piece = string_of(&cur);
            parts.push(piece);
            cur = Vec::new();
            assert(views(parts@) =~= views(old_parts).push(piece@));
            assert(views(parts@).push(cur@) =~= views(old_parts).push(piece@).push(Seq::<char>::empty()));
        } else {
            cur.push(v[i]);
            assert(views(parts@).push(cur@) =~= views(old_parts).push(old_cur).update(
                views(old_parts).len() as int, old_cur.push(v@[i as int])));
        }
        i = i + 1;
    }
    assert(v@.take(v.len() as int) == v@);
    let last = string_of(&cur);
    parts.push(last);
    assert(views(parts@) =~= views(parts@.drop_last()).push(last@));
    parts
}

} // verus!
