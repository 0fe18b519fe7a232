//! The stanza grammar of the control protocol's output stream.
//!
//! Notification lines are `%<keyword>[ <args>]`; a block opens on `%begin`
//! and closes on a line beginning with `%end` or `%error`. The argument
//! grammar shared by those lines is up to three whitespace-separated tokens
//! after the keyword — timestamp, sequence number, flags — each optional but
//! positionally fixed.

use vstd::prelude::*;

verus! {

/// Whitespace for the purpose of argument tokenization.
pub open spec fn is_ws(c: char) -> bool {
    c == ' ' || c == '\t'
}

/// Whether `p` is a prefix of `s`.
pub open spec fn has_prefix(s: Seq<char>, p: Seq<char>) -> bool {
    s.len() >= p.len() && forall|i: int| 0 <= i < p.len() ==> s[i] == p[i]
}

/// Whether `line` is a stanza of the given keyword: a `%`, the keyword, and
/// then either the end of the line or whitespace before the arguments.
pub open spec fn is_stanza_kw(line: Seq<char>, kw: Seq<char>) -> bool {
    &&& line.len() >= kw.len() + 1
    &&& line[0] == '%'
    &&& (forall|i: int| 0 <= i < kw.len() ==> line[i + 1] == kw[i])
    &&& (line.len() == kw.len() + 1 || is_ws(line[kw.len() as int + 1]))
}

/// Whether `line` opens an output block.
pub open spec fn begins_block(line: Seq<char>) -> bool {
    is_stanza_kw(line, "begin"@)
}

/// Whether `line` terminates an open output block: it begins with `%end`
/// (success) or `%error` (failure).
pub open spec fn ends_block(line: Seq<char>) -> bool {
    has_prefix(line, "%end"@) || has_prefix(line, "%error"@)
}

/// One tokenization step: feeding character `c` to the splitter whose
/// completed tokens are `ts` and whose open partial token is `cur`.
pub open spec fn toks_step(ts: Seq<Seq<char>>, cur: Seq<char>, c: char) -> (Seq<Seq<char>>, Seq<char>) {
    if is_ws(c) {
        if cur.len() > 0 {
            (ts.push(cur), Seq::empty())
        } else {
            (ts, cur)
        }
    } else {
        (ts, cur.push(c))
    }
}

/// Folds the splitter over all of `s`, starting from no tokens and no open
/// partial token.
pub open spec fn toks_fold(s: Seq<char>) -> (Seq<Seq<char>>, Seq<char>)
    decreases s.len(),
{
    if s.len() == 0 {
        (Seq::empty(), Seq::empty())
    } else {
        let prev = toks_fold(s.drop_last());
        toks_step(prev.0, prev.1, s.last())
    }
}

/// The whitespace-separated tokens of `s`, in order.
pub open spec fn split_tokens(s: Seq<char>) -> Seq<Seq<char>> {
    let f = toks_fold(s);
    if f.1.len() > 0 {
        f.0.push(f.1)
    } else {
        f.0
    }
}

/// A decimal digit.
pub open spec fn is_digit(c: char) -> bool {
    '0' <= c && c <= '9'
}

/// The value of one decimal digit.
pub open spec fn digit_val(c: char) -> nat {
    (c as nat - '0' as nat) as nat
}

/// Whether every character of `s` is a decimal digit.
pub open spec fn all_digits(s: Seq<char>) -> bool {
    forall|i: int| 0 <= i < s.len() ==> is_digit(s[i])
}

/// The value of `s` read as a most-significant-first decimal numeral.
pub open spec fn dec_val(s: Seq<char>) -> nat
    decreases s.len(),
{
    if s.len() == 0 {
        0
    } else {
        dec_val(s.drop_last()) * 10 + digit_val(s.last())
    }
}

/// Whether `s` is a decimal numeral whose value fits in a `u64`.
pub open spec fn is_u64_decimal(s: Seq<char>) -> bool {
    s.len() > 0 && all_digits(s) && dec_val(s) <= u64::MAX
}

/// A numeral's value only grows as digits are appended: the value of a
/// prefix never exceeds the value of the whole.
proof fn lemma_dec_val_take(s: Seq<char>, j: int)
    requires
        0 <= j <= s.len(),
    ensures
        dec_val(s.take(j)) <= dec_val(s),
    decreases s.len(),
{
    if j < s.len() {
        assert(s.drop_last().take(j) =~= s.take(j));
        lemma_dec_val_take(s.drop_last(), j);
    } else {
        assert(s.take(j) =~= s);
    }
}

/// Parses a decimal numeral into a `u64`; `None` on an empty token, a
/// non-digit character, or a value too large for a `u64`.
pub fn parse_u64(tok: &str) -> (r: Option<u64>)
    ensures
        is_u64_decimal(tok@) ==> r == Some(dec_val(tok@) as u64),
        !is_u64_decimal(tok@) ==> r is None,
{
    let n = tok.unicode_len();
    if n == 0 {
        return None;
    }
    let mut acc: u64 = 0;
    let mut i: usize = 0;
    while i < n
        invariant
            0 <= i <= n,
            n == tok@.len(),
            all_digits(tok@.take(i as int)),
            acc == dec_val(tok@.take(i as int)),
        decreases n - i,
    {
        let c = tok.get_char(i);
        proof {
            assert(tok@.take(i as int + 1).drop_last() =~= tok@.take(i as int));
            assert(tok@.take(i as int + 1).last() == tok@[i as int]);
        }
        if c < '0' || '9' < c {
            return None;
        }
        let d: u64 = (c as u32 - 48) as u64;
        let overflowed: bool;
        match acc.checked_mul(10) {
            Some(m) => match m.checked_add(d) {
                Some(v) => {
                    acc = v;
                    overflowed = false;
                },
                None => {
                    overflowed = true;
                },
            },
            None => {
                overflowed = true;
            },
        }
        if overflowed {
            proof {
                lemma_dec_val_take(tok@, i as int + 1);
            }
            return None;
        }
        i = i + 1;
    }
    proof {
        assert(tok@.take(n as int) =~= tok@);
    }
    Some(acc)
}

/// The argument region of a terminator line: what follows its keyword.
pub open spec fn terminator_args(line: Seq<char>) -> Seq<char>
    recommends
        ends_block(line),
{
    if has_prefix(line, "%end"@) {
        line.skip("%end"@.len() as int)
    } else {
        line.skip("%error"@.len() as int)
    }
}

/// The sequence number a terminator line declares: the second token of its
/// argument region, read as a decimal numeral. `None` when the token is
/// absent or is not a numeral that fits in a `u64` — a protocol error, since
/// the sequence number is mandatory on a terminator.
pub open spec fn terminator_num(line: Seq<char>) -> Option<u64>
    recommends
        ends_block(line),
{
    let ts = split_tokens(terminator_args(line));
    if ts.len() >= 2 && is_u64_decimal(ts[1]) {
        Some(dec_val(ts[1]) as u64)
    } else {
        None
    }
}

/// Extracts the mandatory sequence number of a terminator line.
pub fn terminator_sequence(line: &str) -> (r: Option<u64>)
    requires
        ends_block(line@),
    ensures
        r == terminator_num(line@),
{
    proof {
        reveal_strlit("%end");
        reveal_strlit("%error");
    }
    let k: usize = if starts_with(line, "%end") {
        4
    } else {
        6
    };
    let rest = line.substring_char(k, line.unicode_len());
    proof {
        assert(rest@ =~= terminator_args(line@));
    }
    let args = get_args(rest);
    match args.1 {
        None => None,
        Some(t) => parse_u64(t),
    }
}

/// The text of an output block: its lines concatenated in arrival order with
/// the line boundaries preserved.
pub open spec fn join_lines(ls: Seq<Seq<char>>) -> Seq<char>
    decreases ls.len(),
{
    if ls.len() == 0 {
        Seq::empty()
    } else if ls.len() == 1 {
        ls[0]
    } else {
        join_lines(ls.drop_last()) + seq!['\n'] + ls.last()
    }
}

/// Concatenates accumulated block lines, newline-separated.
pub fn join(ls: &Vec<String>) -> (r: String)
    ensures
        r@ == join_lines(ls.deep_view()),
{
    let mut r = String::new();
    let mut i: usize = 0;
    proof {
        reveal_strlit("\n");
    }
    while i < ls.len()
        invariant
            0 <= i <= ls@.len(),
            ls.deep_view().len() == ls@.len(),
            r@ == join_lines(ls.deep_view().take(i as int)),
            "\n"@ =~= seq!['\n'],
        decreases ls@.len() - i,
    {
        if i > 0 {
            r.append("\n");
        }
        r.append(ls[i].as_str());
        proof {
            let dv = ls.deep_view();
            assert(dv.take(i as int + 1).drop_last() =~= dv.take(i as int));
            assert(dv.take(i as int + 1).last() == dv[i as int]);
            if i == 0 {
                assert(r@ =~= dv[0]);
                assert(join_lines(dv.take(1)) == dv.take(1)[0]);
            }
        }
        i = i + 1;
    }
    proof {
        assert(ls.deep_view().take(ls@.len() as int) =~= ls.deep_view());
    }
    r
}

/// Tests whether `c` counts as argument-separating whitespace.
pub fn ws_char(c: char) -> (b: bool)
    ensures
        b == is_ws(c),
{
    c == ' ' || c == '\t'
}

/// Tests whether `line` is a stanza of the given keyword (without its `%`).
pub fn stanza_keyword_is(line: &str, kw: &str) -> (b: bool)
    ensures
        b == is_stanza_kw(line@, kw@),
{
    let n = line.unicode_len();
    let k = kw.unicode_len();
    if k == usize::MAX || n < k + 1 {
        return false;
    }
    if line.get_char(0) != '%' {
        return false;
    }
    let mut i: usize = 0;
    while i < k
        invariant
            0 <= i <= k,
            k + 1 <= n == line@.len(),
            k == kw@.len(),
            line@[0] == '%',
            forall|j: int| 0 <= j < i ==> line@[j + 1] == kw@[j],
        decreases k - i,
    {
        if line.get_char(i + 1) != kw.get_char(i) {
            return false;
        }
        i = i + 1;
    }
    n == k + 1 || ws_char(line.get_char(k + 1))
}

/// Parses the shared argument grammar of `begin`/`end`/`error` stanzas: the
/// first three whitespace-separated tokens of `line` — timestamp, sequence
/// number, flags — each optional but positionally fixed.
pub fn get_args<'a>(line: &'a str) -> (r: (Option<&'a str>, Option<&'a str>, Option<&'a str>))
    ensures
        ({
            let ts = split_tokens(line@);
            &&& (r.0 is Some <==> ts.len() >= 1)
            &&& (r.1 is Some <==> ts.len() >= 2)
            &&& (r.2 is Some <==> ts.len() >= 3)
            &&& (r.0 matches Some(t) ==> t@ == ts[0])
            &&& (r.1 matches Some(t) ==> t@ == ts[1])
            &&& (r.2 matches Some(t) ==> t@ == ts[2])
        }),
{
    let n = line.unicode_len();
    let mut r0: Option<&'a str> = None;
    let mut r1: Option<&'a str> = None;
    let mut r2: Option<&'a str> = None;
    let ghost mut ts: Seq<Seq<char>> = Seq::empty();
    let mut start: usize = 0;
    let mut in_tok: bool = false;
    let mut i: usize = 0;
    while i < n
        invariant
            0 <= i <= n,
            n == line@.len(),
            in_tok ==> start < i,
            toks_fold(line@.take(i as int)).0 == ts,
            toks_fold(line@.take(i as int)).1 == (if in_tok {
                line@.subrange(start as int, i as int)
            } else {
                Seq::<char>::empty()
            }),
            r0 is Some <==> ts.len() >= 1,
            r1 is Some <==> ts.len() >= 2,
            r2 is Some <==> ts.len() >= 3,
            r0 matches Some(t) ==> t@ == ts[0],
            r1 matches Some(t) ==> t@ == ts[1],
            r2 matches Some(t) ==> t@ == ts[2],
        decreases n - i,
    {
        let c = line.get_char(i);
        proof {
            assert(line@.take(i as int + 1).drop_last() =~= line@.take(i as int));
            assert(line@.take(i as int + 1).last() == line@[i as int]);
        }
        if ws_char(c) {
            if in_tok {
                let tok = line.substring_char(start, i);
                proof {
                    ts = ts.push(line@.subrange(start as int, i as int));
                }
                if r0.is_none() {
                    r0 = Some(tok);
                } else if r1.is_none() {
                    r1 = Some(tok);
                } else if r2.is_none() {
                    r2 = Some(tok);
                }
                in_tok = false;
            }
        } else {
            if !in_tok {
                start = i;
                in_tok = true;
            }
            proof {
                assert(line@.subrange(start as int, i as int + 1) =~= line@.subrange(
                    start as int,
                    i as int,
                ).push(line@[i as int]));
            }
        }
        i = i + 1;
    }
    proof {
        assert(line@.take(n as int) =~= line@);
    }
    if in_tok {
        let tok = line.substring_char(start, n);
        proof {
            ts = ts.push(line@.subrange(start as int, n as int));
        }
        if r0.is_none() {
            r0 = Some(tok);
        } else if r1.is_none() {
            r1 = Some(tok);
        } else if r2.is_none() {
            r2 = Some(tok);
        }
    }
    (r0, r1, r2)
}

/// Tests whether `p` is a prefix of `line`.
pub fn starts_with(line: &str, p: &str) -> (b: bool)
    ensures
        b == has_prefix(line@, p@),
{
    let n = line.unicode_len();
    let k = p.unicode_len();
    if n < k {
        return false;
    }
    let mut i: usize = 0;
    while i < k
        invariant
            0 <= i <= k,
            k <= n == line@.len(),
            k == p@.len(),
            forall|j: int| 0 <= j < i ==> line@[j] == p@[j],
        decreases k - i,
    {
        if line.get_char(i) != p.get_char(i) {
            return false;
        }
        i = i + 1;
    }
    true
}

} // verus!
