//! Per-pane prompt history: what the owner sent each pane, for
//! cross-device catch-up. Bounded per pane, rendered numbered.
use crate::text::{append_decimal, decimal, push_char};
use std::collections::VecDeque;
use vstd::prelude::*;
use vstd::string::*;

verus! {

/// Prompts remembered per pane.
pub const HISTORY_CAP: usize = 20;

/// A log after one bounded push of `text`.
pub open spec fn capped_push<T>(log: Seq<T>, text: T) -> Seq<T> {
    (if log.len() >= HISTORY_CAP {
        log.drop_first()
    } else {
        log
    }).push(text)
}

/// Bounded push: at capacity the oldest entry falls off the front.
pub fn record_capped(log: &mut VecDeque<String>, text: String)
    ensures
        final(log)@ == capped_push(old(log)@, text),
{
    if log.len() >= HISTORY_CAP {
        log.pop_front();
    }
    log.push_back(text);
}

/// The history stays bounded and ordered: a log within capacity stays
/// within it after a push, the newest entry is last, and what stays of
/// the old entries keeps its order (the oldest fall off the front).
pub proof fn law_history_bounded_and_ordered(log: Seq<String>, text: String)
    requires
        log.len() <= HISTORY_CAP,
    ensures
        capped_push(log, text).len() <= HISTORY_CAP,
        capped_push(log, text).last() == text,
        capped_push(log, text).drop_last() == log.subrange(
            log.len() - (capped_push(log, text).len() - 1),
            log.len() as int,
        ),
{
    assert(capped_push(log, text).drop_last() =~= log.subrange(
        log.len() - (capped_push(log, text).len() - 1),
        log.len() as int,
    ));
}

/// `n` clamped into `1..=HISTORY_CAP`.
pub open spec fn clamp_count(n: int) -> int {
    if n < 1 {
        1
    } else if n > HISTORY_CAP {
        HISTORY_CAP as int
    } else {
        n
    }
}

/// Numbered lines `"1. a\n2. b…"` for the first `k` items.
pub open spec fn numbered(items: Seq<Seq<char>>, k: nat) -> Seq<char>
    decreases k,
{
    if k == 0 {
        Seq::empty()
    } else {
        numbered(items, (k - 1) as nat) + (if k > 1 {
            seq!['\n']
        } else {
            Seq::empty()
        }) + decimal(k) + ". "@ + items[k - 1]
    }
}

/// The last `min(clamp(n), len)` entries, oldest→newest, as text.
pub open spec fn history_spec(log: Seq<String>, n: int) -> Seq<char> {
    let take = if clamp_count(n) < log.len() {
        clamp_count(n)
    } else {
        log.len() as int
    };
    let tail = log.subrange(log.len() - take, log.len() as int).map_values(|s: String| s@);
    numbered(tail, take as nat)
}

/// Last `n` entries (clamped to `1..=HISTORY_CAP`), numbered from 1,
/// oldest first, one per line.
pub fn history_text(log: &VecDeque<String>, n: usize) -> (text: String)
    ensures
        text@ == history_spec(log@, n as int),
{
    let k: usize = if n < 1 {
        1
    } else if n > HISTORY_CAP {
        HISTORY_CAP
    } else {
        n
    };
    let take: usize = if k < log.len() {
        k
    } else {
        log.len()
    };
    let len = log.len();
    let start = len - take;
    let ghost tail = log@.subrange(start as int, log@.len() as int).map_values(|s: String| s@);
    let mut out = String::new();
    let mut i: usize = 0;
    while i < take
        invariant
            i <= take,
            start + take == len,
            len == log@.len(),
            tail == log@.subrange(start as int, log@.len() as int).map_values(|s: String| s@),
            out@ == numbered(tail, i as nat),
        decreases take - i,
    {
        if i > 0 {
            push_char(&mut out, '\n');
        }
        append_decimal(&mut out, (i + 1) as u64);
        out.append(". ");
        out.append(log[start + i].as_str());
        proof {
            assert(tail[i as int] == log@[start + i]@);
            assert(out@ =~= numbered(tail, (i + 1) as nat));
        }
        i = i + 1;
    }
    out
}

/// ASCII decimal digit.
pub open spec fn is_digit(c: char) -> bool {
    '0' <= c <= '9'
}

/// Value of an all-digit sequence.
pub open spec fn digits_value(s: Seq<char>) -> nat
    decreases s.len(),
{
    if s.len() == 0 {
        0
    } else {
        digits_value(s.drop_last()) * 10 + ((s.last() as u32) - ('0' as u32)) as nat
    }
}

/// The digits part of an unsigned literal (one leading `+` dropped).
pub open spec fn unsigned_body(s: Seq<char>) -> Seq<char> {
    if s.len() > 0 && s[0] == '+' {
        s.drop_first()
    } else {
        s
    }
}

/// `usize::from_str`: an optional `+`, then one or more ASCII digits,
/// the value fitting in `usize`.
pub open spec fn parse_usize(s: Seq<char>) -> Option<nat> {
    let body = unsigned_body(s);
    if body.len() == 0 || exists|i: int| 0 <= i < body.len() && !is_digit(#[trigger] body[i]) {
        None
    } else if digits_value(body) <= usize::MAX {
        Some(digits_value(body))
    } else {
        None
    }
}

proof fn lemma_digits_value_grows(s: Seq<char>, j: int)
    requires
        0 <= j <= s.len(),
        forall|i: int| 0 <= i < s.len() ==> is_digit(#[trigger] s[i]),
    ensures
        digits_value(s.take(j)) <= digits_value(s),
    decreases s.len() - j,
{
    if j < s.len() {
        lemma_digits_value_grows(s, j + 1);
        assert(s.take(j + 1).drop_last() =~= s.take(j));
    } else {
        assert(s.take(j) =~= s);
    }
}

/// Parse a `usize` the way `str::parse::<usize>` does.
pub fn parse_usize_str(arg: &str) -> (r: Option<usize>)
    ensures
        match r {
            Some(v) => parse_usize(arg@) == Some(v as nat),
            None => parse_usize(arg@) is None,
        },
{
    let n = arg.unicode_len();
    let mut i: usize = 0;
    if n > 0 && arg.get_char(0) == '+' {
        i = 1;
    }
    let start = i;
    let ghost body = unsigned_body(arg@);
    assert(body =~= arg@.subrange(start as int, n as int));
    if start == n {
        return None;
    }
    let mut acc: usize = 0;
    while i < n
        invariant
            n == arg@.len(),
            start <= i <= n,
            start < n,
            body == arg@.subrange(start as int, n as int),
            body == unsigned_body(arg@),
            forall|j: int| 0 <= j < i - start ==> is_digit(#[trigger] body[j]),
            acc as nat == digits_value(body.take(i - start)),
        decreases n - i,
    {
        let c = arg.get_char(i);
        if !('0' <= c && c <= '9') {
            assert(!is_digit(body[i - start]));
            assert(exists|j: int| 0 <= j < body.len() && !is_digit(#[trigger] body[j]));
            assert(parse_usize(arg@) is None);
            return None;
        }
        let d = (c as u32 - '0' as u32) as usize;
        assert(body.take(i - start + 1).drop_last() =~= body.take(i - start));
        let ghost next = acc as int * 10 + d as int;
        assert(digits_value(body.take(i - start + 1)) == next);
        if acc > (usize::MAX - d) / 10 {
            proof {
                assert(next > usize::MAX) by (nonlinear_arith)
                    requires
                        acc > (usize::MAX - d) / 10,
                        next == acc * 10 + d,
                        d <= 9,
                ;
                if forall|j: int| 0 <= j < body.len() ==> is_digit(#[trigger] body[j]) {
                    lemma_digits_value_grows(body, i - start + 1);
                    assert(digits_value(body) > usize::MAX);
                } else {
                    assert(exists|j: int| 0 <= j < body.len() && !is_digit(#[trigger] body[j]));
                }
                assert(parse_usize(arg@) is None);
            }
            return None;
        }
        acc = acc * 10 + d;
        i = i + 1;
    }
    assert(body.take(n - start) =~= body);
    Some(acc)
}

/// `u64::from_str`: an optional `+`, then one or more ASCII digits, the
/// value fitting in `u64`.
pub open spec fn parse_u64(s: Seq<char>) -> Option<nat> {
    let body = unsigned_body(s);
    if body.len() == 0 || exists|i: int| 0 <= i < body.len() && !is_digit(#[trigger] body[i]) {
        None
    } else if digits_value(body) <= u64::MAX {
        Some(digits_value(body))
    } else {
        None
    }
}

/// Parse a `u64` the way `str::parse::<u64>` does.
pub fn parse_u64_str(arg: &str) -> (r: Option<u64>)
    ensures
        match r {
            Some(v) => parse_u64(arg@) == Some(v as nat),
            None => parse_u64(arg@) is None,
        },
{
    let n = arg.unicode_len();
    let mut i: usize = 0;
    if n > 0 && arg.get_char(0) == '+' {
        i = 1;
    }
    let start = i;
    let ghost body = unsigned_body(arg@);
    assert(body =~= arg@.subrange(start as int, n as int));
    if start == n {
        return None;
    }
    let mut acc: u64 = 0;
    while i < n
        invariant
            n == arg@.len(),
            start <= i <= n,
            start < n,
            body == arg@.subrange(start as int, n as int),
            body == unsigned_body(arg@),
            forall|j: int| 0 <= j < i - start ==> is_digit(#[trigger] body[j]),
            acc as nat == digits_value(body.take(i - start)),
        decreases n - i,
    {
        let c = arg.get_char(i);
        if !('0' <= c && c <= '9') {
            assert(!is_digit(body[i - start]));
            assert(exists|j: int| 0 <= j < body.len() && !is_digit(#[trigger] body[j]));
            assert(parse_u64(arg@) is None);
            return None;
        }
        let d = (c as u32 - '0' as u32) as u64;
        assert(body.take(i - start + 1).drop_last() =~= body.take(i - start));
        let ghost next = acc as int * 10 + d as int;
        assert(digits_value(body.take(i - start + 1)) == next);
        if acc > (u64::MAX - d) / 10 {
            proof {
                assert(next > u64::MAX) by (nonlinear_arith)
                    requires
                        acc > (u64::MAX - d) / 10,
                        next == acc * 10 + d,
                        d <= 9,
                ;
                if forall|j: int| 0 <= j < body.len() ==> is_digit(#[trigger] body[j]) {
                    lemma_digits_value_grows(body, i - start + 1);
                    assert(digits_value(body) > u64::MAX);
                } else {
                    assert(exists|j: int| 0 <= j < body.len() && !is_digit(#[trigger] body[j]));
                }
                assert(parse_u64(arg@) is None);
            }
            return None;
        }
        acc = acc * 10 + d;
        i = i + 1;
    }
    assert(body.take(n - start) =~= body);
    Some(acc)
}

/// Clamp a `/history [n]` argument: default 5 when it does not parse,
/// else `1..=HISTORY_CAP`.
pub fn parse_history_n(arg: &str) -> (n: usize)
    ensures
        1 <= n <= HISTORY_CAP,
        n == match parse_usize(arg@) {
            Some(v) => clamp_count(v as int),
            None => 5,
        },
{
    match parse_usize_str(arg) {
        Some(v) => if v < 1 {
            1
        } else if v > HISTORY_CAP {
            HISTORY_CAP
        } else {
            v
        },
        None => 5,
    }
}

} // verus!
