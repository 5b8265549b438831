//! Display-boundary secret masking: home dir, other users' names, chat
//! ids, forum ids, bot tokens and `TELEGRAM_*` values. Every pass scans
//! left to right and rewrites non-overlapping matches.
use crate::text::{
    append_chars, append_range, at, at_pat, chars_of, lemma_run_len_bound, push_char, run_len,
};
use vstd::prelude::*;

verus! {

/// `char::is_alphanumeric`: Unicode `Alphabetic` or `Numeric`.
pub uninterp spec fn unicode_alnum(c: char) -> bool;

/// Unicode alphanumeric test (`char::is_alphanumeric`).
#[verifier::external_body]
fn is_alnum(c: char) -> (r: bool)
    ensures
        r == unicode_alnum(c),
{
    c.is_alphanumeric()
}

/// Character classes the passes scan over.
#[derive(Clone, Copy)]
pub enum Class {
    Digit,
    UserSeg,
    TokenTail,
    Space,
    EnvName,
    NotAsciiSpace,
}

/// Membership of a character in a class.
pub open spec fn class_has(k: Class, c: char) -> bool {
    match k {
        Class::Digit => '0' <= c <= '9',
        Class::UserSeg => unicode_alnum(c) || c == '.' || c == '_' || c == '-',
        Class::TokenTail => ('0' <= c <= '9') || ('a' <= c <= 'z') || ('A' <= c <= 'Z') || c
            == '_' || c == '-',
        Class::Space => c == ' ',
        Class::EnvName => ('A' <= c <= 'Z') || c == '_',
        Class::NotAsciiSpace => !(c == ' ' || c == '\t' || c == '\n' || c == '\x0C' || c
            == '\r'),
    }
}

/// A class as a predicate.
pub open spec fn pred(k: Class) -> spec_fn(char) -> bool {
    |c: char| class_has(k, c)
}

fn has(k: Class, c: char) -> (r: bool)
    ensures
        r == class_has(k, c),
{
    match k {
        Class::Digit => '0' <= c && c <= '9',
        Class::UserSeg => is_alnum(c) || c == '.' || c == '_' || c == '-',
        Class::TokenTail => ('0' <= c && c <= '9') || ('a' <= c && c <= 'z') || ('A' <= c && c
            <= 'Z') || c == '_' || c == '-',
        Class::Space => c == ' ',
        Class::EnvName => ('A' <= c && c <= 'Z') || c == '_',
        Class::NotAsciiSpace => !(c == ' ' || c == '\t' || c == '\n' || c == '\x0C' || c
            == '\r'),
    }
}

/// Length of the run of class `k` starting at `i`.
fn run(v: &Vec<char>, i: usize, k: Class) -> (n: usize)
    requires
        i <= v@.len(),
    ensures
        n == run_len(v@, i as int, pred(k)),
        i + n <= v@.len(),
{
    proof {
        lemma_run_len_bound(v@, i as int, pred(k));
    }
    let mut j: usize = i;
    while j < v.len() && has(k, v[j])
        invariant
            i <= j <= v@.len(),
            run_len(v@, i as int, pred(k)) == (j - i) + run_len(v@, j as int, pred(k)),
        decreases v@.len() - j,
    {
        j = j + 1;
    }
    j - i
}

/// `/Users/`.
pub open spec fn users_dir() -> Seq<char> {
    seq!['/', 'U', 's', 'e', 'r', 's', '/']
}

/// `/home/`.
pub open spec fn home_dir() -> Seq<char> {
    seq!['/', 'h', 'o', 'm', 'e', '/']
}

/// `chat_id`.
pub open spec fn chat_id_word() -> Seq<char> {
    seq!['c', 'h', 'a', 't', '_', 'i', 'd']
}

/// `-100`.
pub open spec fn forum_prefix() -> Seq<char> {
    seq!['-', '1', '0', '0']
}

/// `TELEGRAM_`.
pub open spec fn telegram_word() -> Seq<char> {
    seq!['T', 'E', 'L', 'E', 'G', 'R', 'A', 'M', '_']
}

/// `***`.
pub open spec fn stars() -> Seq<char> {
    seq!['*', '*', '*']
}

/// `***TOKEN***`.
pub open spec fn token_mask() -> Seq<char> {
    seq!['*', '*', '*', 'T', 'O', 'K', 'E', 'N', '*', '*', '*']
}

/// `chat_id=***`.
pub open spec fn chat_id_mask() -> Seq<char> {
    chat_id_word() + seq!['='] + stars()
}

/// Home collapse from position `i`: `home` at a path boundary (followed
/// by `/` or the end of the line) becomes `~`; an empty home never
/// matches.
pub open spec fn home_from(s: Seq<char>, h: Seq<char>, i: int) -> Seq<char>
    decreases s.len() - i,
{
    if i < 0 || i >= s.len() {
        Seq::empty()
    } else if h.len() > 0 && at(s, i, h) && (i + h.len() == s.len() || s[i + h.len()] == '/') {
        seq!['~'] + home_from(s, h, i + h.len())
    } else {
        seq![s[i]] + home_from(s, h, i + 1)
    }
}

/// User-dir pass from `i`: `pre` followed by a non-empty user segment
/// becomes `pre***`.
pub open spec fn users_from(s: Seq<char>, pre: Seq<char>, i: int) -> Seq<char>
    decreases s.len() - i,
{
    if i < 0 || i >= s.len() {
        Seq::empty()
    } else if pre.len() > 0 && at(s, i, pre) {
        let r = run_len(s, i + pre.len(), pred(Class::UserSeg));
        proof {
            lemma_run_len_bound(s, i + pre.len(), pred(Class::UserSeg));
        }
        if r > 0 {
            pre + stars() + users_from(s, pre, i + pre.len() + r)
        } else {
            pre + users_from(s, pre, i + pre.len())
        }
    } else {
        seq![s[i]] + users_from(s, pre, i + 1)
    }
}

/// Where a `chat_id` assignment ends (`None` when the word at `i` is
/// not followed by spaces, `=` or `:`, spaces, an optional `-`, digits).
pub open spec fn chat_id_end(s: Seq<char>, i: int) -> Option<int> {
    let j = i + chat_id_word().len();
    let j1 = j + run_len(s, j, pred(Class::Space));
    if j1 < s.len() && (s[j1] == '=' || s[j1] == ':') {
        let j2 = j1 + 1 + run_len(s, j1 + 1, pred(Class::Space));
        let d = j2 + (if j2 < s.len() && s[j2] == '-' {
            1int
        } else {
            0int
        });
        let nd = run_len(s, d, pred(Class::Digit));
        if nd > 0 {
            Some(d + nd)
        } else {
            None
        }
    } else {
        None
    }
}

/// A `chat_id` assignment ends past its word and within the line.
pub proof fn lemma_chat_id_end(s: Seq<char>, i: int)
    requires
        at(s, i, chat_id_word()),
    ensures
        chat_id_end(s, i) matches Some(e) ==> i < e <= s.len(),
{
    let j = i + chat_id_word().len();
    lemma_run_len_bound(s, j, pred(Class::Space));
    let j1 = j + run_len(s, j, pred(Class::Space));
    if j1 < s.len() && (s[j1] == '=' || s[j1] == ':') {
        lemma_run_len_bound(s, j1 + 1, pred(Class::Space));
        let j2 = j1 + 1 + run_len(s, j1 + 1, pred(Class::Space));
        let d = j2 + (if j2 < s.len() && s[j2] == '-' {
            1int
        } else {
            0int
        });
        lemma_run_len_bound(s, d, pred(Class::Digit));
    }
}

/// Chat-id pass from `i`.
pub open spec fn chat_id_from(s: Seq<char>, i: int) -> Seq<char>
    decreases s.len() - i,
{
    if i < 0 || i >= s.len() {
        Seq::empty()
    } else if at(s, i, chat_id_word()) {
        proof {
            lemma_chat_id_end(s, i);
        }
        match chat_id_end(s, i) {
            Some(e) => if e > i {
                chat_id_mask() + chat_id_from(s, e)
            } else {
                Seq::empty()
            },
            None => chat_id_word() + chat_id_from(s, i + chat_id_word().len()),
        }
    } else {
        seq![s[i]] + chat_id_from(s, i + 1)
    }
}

/// Forum-id pass from `i`: `-100` followed by digits becomes `-100***`.
pub open spec fn forum_from(s: Seq<char>, i: int) -> Seq<char>
    decreases s.len() - i,
{
    if i < 0 || i >= s.len() {
        Seq::empty()
    } else if at(s, i, forum_prefix()) {
        let nd = run_len(s, i + 4, pred(Class::Digit));
        proof {
            lemma_run_len_bound(s, i + 4, pred(Class::Digit));
        }
        if nd > 0 {
            forum_prefix() + stars() + forum_from(s, i + 4 + nd)
        } else {
            forum_prefix() + forum_from(s, i + 4)
        }
    } else {
        seq![s[i]] + forum_from(s, i + 1)
    }
}

/// Token pass from `i`: six or more digits, `:`, twenty or more tail
/// characters become `***TOKEN***`.
pub open spec fn tokens_from(s: Seq<char>, i: int) -> Seq<char>
    decreases s.len() - i,
{
    if i < 0 || i >= s.len() {
        Seq::empty()
    } else {
        let a = run_len(s, i, pred(Class::Digit));
        proof {
            lemma_run_len_bound(s, i, pred(Class::Digit));
        }
        if a > 0 {
            let c = i + a;
            let b = run_len(s, c + 1, pred(Class::TokenTail));
            proof {
                if c < s.len() {
                    lemma_run_len_bound(s, c + 1, pred(Class::TokenTail));
                }
            }
            if a >= 6 && c < s.len() && s[c] == ':' && b >= 20 {
                token_mask() + tokens_from(s, c + 1 + b)
            } else {
                s.subrange(i, c) + tokens_from(s, c)
            }
        } else {
            seq![s[i]] + tokens_from(s, i + 1)
        }
    }
}

/// `TELEGRAM_*` pass from `i`: the value after `TELEGRAM_NAME=` up to
/// the next ASCII whitespace becomes `***`.
pub open spec fn telegram_from(s: Seq<char>, i: int) -> Seq<char>
    decreases s.len() - i,
{
    if i < 0 || i >= s.len() {
        Seq::empty()
    } else if at(s, i, telegram_word()) {
        let j = i + 9 + run_len(s, i + 9, pred(Class::EnvName));
        proof {
            lemma_run_len_bound(s, i + 9, pred(Class::EnvName));
        }
        if j < s.len() && s[j] == '=' {
            let e = j + 1 + run_len(s, j + 1, pred(Class::NotAsciiSpace));
            proof {
                lemma_run_len_bound(s, j + 1, pred(Class::NotAsciiSpace));
            }
            s.subrange(i, j + 1) + stars() + telegram_from(s, e)
        } else {
            s.subrange(i, j) + telegram_from(s, j)
        }
    } else {
        seq![s[i]] + telegram_from(s, i + 1)
    }
}

/// The whole masking pipeline, in order: home, user dirs (`/Users/`
/// then `/home/`), chat-id assignments, forum ids, tokens, `TELEGRAM_*`
/// values.
pub open spec fn mask_spec(s: Seq<char>, home: Seq<char>) -> Seq<char> {
    let a = home_from(s, home, 0);
    let b = users_from(users_from(a, users_dir(), 0), home_dir(), 0);
    telegram_from(tokens_from(forum_from(chat_id_from(b, 0), 0), 0), 0)
}

/// Mask one display line. `home` is `$HOME` (empty skips the home step).
pub fn mask_line(s: &str, home: &str) -> (out: String)
    ensures
        out@ == mask_spec(s@, home@),
{
    let mut out = collapse_home_line(s, home);
    out = mask_user_dirs(out.as_str());
    out = mask_chat_id_assign(out.as_str());
    out = mask_forum_ids(out.as_str());
    out = mask_tokens(out.as_str());
    out = mask_telegram_assign(out.as_str());
    out
}

/// `$HOME` at a path boundary collapses to `~`.
pub fn collapse_home_line(s: &str, home: &str) -> (out: String)
    ensures
        out@ == home_from(s@, home@, 0),
{
    let v = chars_of(s);
    let h = chars_of(home);
    let mut out = String::new();
    let mut i: usize = 0;
    while i < v.len()
        invariant
            i <= v@.len(),
            out@ + home_from(v@, h@, i as int) == home_from(v@, h@, 0),
        decreases v@.len() - i,
    {
        let ghost prev = out@;
        let ghost pi = i as int;
        if h.len() > 0 && at_pat(&v, i, &h) && (i + h.len() == v.len() || v[i + h.len()] == '/') {
            push_char(&mut out, '~');
            i = i + h.len();
        } else {
            push_char(&mut out, v[i]);
            i = i + 1;
        }
        assert(out@ + home_from(v@, h@, i as int) =~= prev + home_from(v@, h@, pi));
    }
    assert(out@ + home_from(v@, h@, i as int) =~= out@);
    out
}

fn users_pass(v: &Vec<char>, pre: &Vec<char>) -> (out: String)
    requires
        pre@.len() > 0,
    ensures
        out@ == users_from(v@, pre@, 0),
{
    let mut out = String::new();
    let mut i: usize = 0;
    while i < v.len()
        invariant
            pre@.len() > 0,
            i <= v@.len(),
            out@ + users_from(v@, pre@, i as int) == users_from(v@, pre@, 0),
        decreases v@.len() - i,
    {
        let ghost prev = out@;
        let ghost pi = i as int;
        if at_pat(v, i, pre) {
            let r = run(v, i + pre.len(), Class::UserSeg);
            append_chars(&mut out, pre);
            if r > 0 {
                out.append("***");
                proof {
                    reveal_strlit("***");
                    assert("***"@ =~= stars());
                }
                i = i + pre.len() + r;
            } else {
                i = i + pre.len();
            }
        } else {
            push_char(&mut out, v[i]);
            i = i + 1;
        }
        assert(out@ + users_from(v@, pre@, i as int) =~= prev + users_from(v@, pre@, pi));
    }
    assert(out@ + users_from(v@, pre@, i as int) =~= out@);
    out
}

/// `/Users/<name>` and `/home/<name>` → `/Users/***` / `/home/***`.
pub fn mask_user_dirs(s: &str) -> (out: String)
    ensures
        out@ == users_from(users_from(s@, users_dir(), 0), home_dir(), 0),
{
    let v = chars_of(s);
    let users: Vec<char> = vec!['/', 'U', 's', 'e', 'r', 's', '/'];
    let home: Vec<char> = vec!['/', 'h', 'o', 'm', 'e', '/'];
    assert(users@ =~= users_dir());
    assert(home@ =~= home_dir());
    let first = users_pass(&v, &users);
    let w = chars_of(first.as_str());
    users_pass(&w, &home)
}

/// `chat_id = -123` / `chat_id: -123` → `chat_id=***`.
pub fn mask_chat_id_assign(s: &str) -> (out: String)
    ensures
        out@ == chat_id_from(s@, 0),
{
    let v = chars_of(s);
    let word: Vec<char> = vec!['c', 'h', 'a', 't', '_', 'i', 'd'];
    assert(word@ =~= chat_id_word());
    let mut out = String::new();
    let mut i: usize = 0;
    while i < v.len()
        invariant
            word@ == chat_id_word(),
            i <= v@.len(),
            out@ + chat_id_from(v@, i as int) == chat_id_from(v@, 0),
        decreases v@.len() - i,
    {
        let ghost prev = out@;
        let ghost pi = i as int;
        if at_pat(&v, i, &word) {
            let j = i + 7;
            let j1 = j + run(&v, j, Class::Space);
            let mut end: Option<usize> = None;
            if j1 < v.len() && (v[j1] == '=' || v[j1] == ':') {
                let j2 = j1 + 1 + run(&v, j1 + 1, Class::Space);
                let d = if j2 < v.len() && v[j2] == '-' {
                    j2 + 1
                } else {
                    j2
                };
                let nd = run(&v, d, Class::Digit);
                if nd > 0 {
                    end = Some(d + nd);
                }
            }
            assert(end == match chat_id_end(v@, i as int) {
                Some(e) => Some(e as usize),
                None => None::<usize>,
            });
            match end {
                Some(e) => {
                    append_chars(&mut out, &word);
                    out.append("=***");
                    proof {
                        reveal_strlit("=***");
                        assert(word@ + "=***"@ =~= chat_id_mask());
                    }
                    i = e;
                },
                None => {
                    append_chars(&mut out, &word);
                    i = i + 7;
                },
            }
        } else {
            push_char(&mut out, v[i]);
            i = i + 1;
        }
        assert(out@ + chat_id_from(v@, i as int) =~= prev + chat_id_from(v@, pi));
    }
    assert(out@ + chat_id_from(v@, i as int) =~= out@);
    out
}

/// `-100<digits>` group/forum ids → `-100***`.
pub fn mask_forum_ids(s: &str) -> (out: String)
    ensures
        out@ == forum_from(s@, 0),
{
    let v = chars_of(s);
    let pre: Vec<char> = vec!['-', '1', '0', '0'];
    assert(pre@ =~= forum_prefix());
    let mut out = String::new();
    let mut i: usize = 0;
    while i < v.len()
        invariant
            pre@ == forum_prefix(),
            i <= v@.len(),
            out@ + forum_from(v@, i as int) == forum_from(v@, 0),
        decreases v@.len() - i,
    {
        let ghost prev = out@;
        let ghost pi = i as int;
        if at_pat(&v, i, &pre) {
            let nd = run(&v, i + 4, Class::Digit);
            append_chars(&mut out, &pre);
            if nd > 0 {
                out.append("***");
                proof {
                    reveal_strlit("***");
                    assert("***"@ =~= stars());
                }
                i = i + 4 + nd;
            } else {
                i = i + 4;
            }
        } else {
            push_char(&mut out, v[i]);
            i = i + 1;
        }
        assert(out@ + forum_from(v@, i as int) =~= prev + forum_from(v@, pi));
    }
    assert(out@ + forum_from(v@, i as int) =~= out@);
    out
}

/// Bot tokens (six or more digits, `:`, twenty or more tail chars).
pub fn mask_tokens(s: &str) -> (out: String)
    ensures
        out@ == tokens_from(s@, 0),
{
    let v = chars_of(s);
    let mut out = String::new();
    let mut i: usize = 0;
    while i < v.len()
        invariant
            i <= v@.len(),
            out@ + tokens_from(v@, i as int) == tokens_from(v@, 0),
        decreases v@.len() - i,
    {
        let ghost prev = out@;
        let ghost pi = i as int;
        let a = run(&v, i, Class::Digit);
        if a > 0 {
            let c = i + a;
            let b: usize = if c < v.len() {
                run(&v, c + 1, Class::TokenTail)
            } else {
                0
            };
            proof {
                if c >= v@.len() {
                    assert(run_len(v@, c + 1, pred(Class::TokenTail)) == 0);
                }
            }
            if a >= 6 && c < v.len() && v[c] == ':' && b >= 20 {
                out.append("***TOKEN***");
                proof {
                    reveal_strlit("***TOKEN***");
                    assert("***TOKEN***"@ =~= token_mask());
                }
                i = c + 1 + b;
            } else {
                append_range(&mut out, &v, i, c);
                i = c;
            }
        } else {
            push_char(&mut out, v[i]);
            i = i + 1;
        }
        assert(out@ + tokens_from(v@, i as int) =~= prev + tokens_from(v@, pi));
    }
    assert(out@ + tokens_from(v@, i as int) =~= out@);
    out
}

/// `TELEGRAM_FOO=secret` → `TELEGRAM_FOO=***` (value to whitespace).
pub fn mask_telegram_assign(s: &str) -> (out: String)
    ensures
        out@ == telegram_from(s@, 0),
{
    let v = chars_of(s);
    let word: Vec<char> = vec!['T', 'E', 'L', 'E', 'G', 'R', 'A', 'M', '_'];
    assert(word@ =~= telegram_word());
    let mut out = String::new();
    let mut i: usize = 0;
    while i < v.len()
        invariant
            word@ == telegram_word(),
            i <= v@.len(),
            out@ + telegram_from(v@, i as int) == telegram_from(v@, 0),
        decreases v@.len() - i,
    {
        let ghost prev = out@;
        let ghost pi = i as int;
        if at_pat(&v, i, &word) {
            let j = i + 9 + run(&v, i + 9, Class::EnvName);
            if j < v.len() && v[j] == '=' {
                let e = j + 1 + run(&v, j + 1, Class::NotAsciiSpace);
                append_range(&mut out, &v, i, j + 1);
                out.append("***");
                proof {
                    reveal_strlit("***");
                    assert("***"@ =~= stars());
                }
                i = e;
            } else {
                append_range(&mut out, &v, i, j);
                i = j;
            }
        } else {
            push_char(&mut out, v[i]);
            i = i + 1;
        }
        assert(out@ + telegram_from(v@, i as int) =~= prev + telegram_from(v@, pi));
    }
    assert(out@ + telegram_from(v@, i as int) =~= out@);
    out
}


/// A bot token sits around position `p` of `t`: six digits, `:` at `p`,
/// then twenty token characters.
pub open spec fn token_at(t: Seq<char>, p: int) -> bool {
    &&& 6 <= p
    &&& p + 21 <= t.len()
    &&& t[p] == ':'
    &&& forall|j: int| p - 6 <= j < p ==> class_has(Class::Digit, #[trigger] t[j])
    &&& forall|j: int| p + 1 <= j < p + 21 ==> class_has(Class::TokenTail, #[trigger] t[j])
}

proof fn lemma_run_split(s: Seq<char>, j: int, m: int, k: Class)
    requires
        0 <= j,
        0 <= m,
        j + m <= s.len(),
        forall|x: int| j <= x < j + m ==> class_has(k, #[trigger] s[x]),
    ensures
        run_len(s, j, pred(k)) == m + run_len(s, j + m, pred(k)),
    decreases m,
{
    if m > 0 {
        assert(pred(k)(s[j]));
        lemma_run_split(s, j + 1, m - 1, k);
    }
}

/// The token pass never starts its output with more token characters
/// than its input has at `j`.
proof fn lemma_lead_tail(s: Seq<char>, j: int, n: int)
    requires
        0 <= j,
        0 <= n <= tokens_from(s, j).len(),
        forall|x: int| 0 <= x < n ==> class_has(Class::TokenTail, #[trigger] tokens_from(s, j)[x]),
    ensures
        run_len(s, j, pred(Class::TokenTail)) >= n,
    decreases s.len() - j,
{
    if n > 0 {
        let o = tokens_from(s, j);
        assert(j < s.len());
        let a = run_len(s, j, pred(Class::Digit));
        lemma_run_len_bound(s, j, pred(Class::Digit));
        if a > 0 {
            let c = j + a;
            let b = run_len(s, c + 1, pred(Class::TokenTail));
            if a >= 6 && c < s.len() && s[c] == ':' && b >= 20 {
                assert(o[0] == '*');
            } else {
                let r = tokens_from(s, c);
                assert(o == s.subrange(j, c) + r);
                assert forall|x: int| j <= x < c implies class_has(Class::TokenTail, #[trigger] s[x]) by {
                    assert(pred(Class::Digit)(s[x]));
                }
                lemma_run_split(s, j, a as int, Class::TokenTail);
                if n > a {
                    assert forall|x: int| 0 <= x < n - a implies class_has(Class::TokenTail, #[trigger] r[x]) by {
                        assert(o[x + a] == r[x]);
                    }
                    lemma_lead_tail(s, c, n - a);
                }
            }
        } else {
            let r = tokens_from(s, j + 1);
            assert(o == seq![s[j]] + r);
            assert(o[0] == s[j]);
            assert(pred(Class::TokenTail)(s[j]));
            assert forall|x: int| 0 <= x < n - 1 implies class_has(Class::TokenTail, #[trigger] r[x]) by {
                assert(o[x + 1] == r[x]);
            }
            lemma_lead_tail(s, j + 1, n - 1);
        }
    }
}

proof fn lemma_token_shift(pre: Seq<char>, r: Seq<char>, p: int)
    requires
        token_at(pre + r, p),
        p >= pre.len() + 6,
    ensures
        token_at(r, p - pre.len()),
{
    let t = pre + r;
    let q = p - pre.len();
    assert(r[q] == t[p]);
    assert forall|j: int| q - 6 <= j < q implies class_has(Class::Digit, #[trigger] r[j]) by {
        assert(t[j + pre.len()] == r[j]);
    }
    assert forall|j: int| q + 1 <= j < q + 21 implies class_has(Class::TokenTail, #[trigger] r[j]) by {
        assert(t[j + pre.len()] == r[j]);
    }
}

/// No bot token survives the token pass: its output holds no six digits,
/// `:` and twenty token characters in a row.
pub proof fn law_no_token_survives(s: Seq<char>, i: int)
    requires
        0 <= i,
    ensures
        forall|p: int| !token_at(#[trigger] tokens_from(s, i), p),
    decreases s.len() - i,
{
    if i < s.len() {
        let o = tokens_from(s, i);
        let a = run_len(s, i, pred(Class::Digit));
        lemma_run_len_bound(s, i, pred(Class::Digit));
        if a > 0 {
            let c = i + a;
            let b = run_len(s, c + 1, pred(Class::TokenTail));
            if a >= 6 && c < s.len() && s[c] == ':' && b >= 20 {
                lemma_run_len_bound(s, c + 1, pred(Class::TokenTail));
                let j2 = c + 1 + b;
                law_no_token_survives(s, j2);
                let m = token_mask();
                assert(o == m + tokens_from(s, j2));
                assert forall|p: int| !token_at(o, p) by {
                    if token_at(o, p) {
                        if p >= 17 {
                            lemma_token_shift(m, tokens_from(s, j2), p);
                        } else if p >= 11 {
                            assert(o[10] == '*');
                            assert(class_has(Class::Digit, o[10]));
                        } else {
                            assert(o[p] == m[p]);
                        }
                    }
                }
            } else {
                let r = tokens_from(s, c);
                law_no_token_survives(s, c);
                let pre = s.subrange(i, c);
                assert(o == pre + r);
                assert forall|p: int| !token_at(o, p) by {
                    if token_at(o, p) {
                        if p >= a + 6 {
                            lemma_token_shift(pre, r, p);
                        } else if p < a {
                            assert(o[p] == s[i + p]);
                            assert(pred(Class::Digit)(s[i + p]));
                        } else {
                            // The first character after the digit run.
                            assert(c < s.len());
                            assert(!pred(Class::Digit)(s[c])) by {
                                if pred(Class::Digit)(s[c]) {
                                    lemma_run_split(s, i, a as int, Class::Digit);
                                }
                            }
                            assert(run_len(s, c, pred(Class::Digit)) == 0);
                            let r1 = tokens_from(s, c + 1);
                            assert(r == seq![s[c]] + r1);
                            assert(o[a as int] == s[c]);
                            if p > a {
                                assert(class_has(Class::Digit, o[a as int]));
                            } else {
                                assert forall|x: int| 0 <= x < 20 implies class_has(
                                    Class::TokenTail,
                                    #[trigger] r1[x],
                                ) by {
                                    assert(o[p + 1 + x] == r1[x]);
                                }
                                lemma_lead_tail(s, c + 1, 20);
                            }
                        }
                    }
                }
            }
        } else {
            let r = tokens_from(s, i + 1);
            law_no_token_survives(s, i + 1);
            assert(o == seq![s[i]] + r);
            assert forall|p: int| !token_at(o, p) by {
                if token_at(o, p) {
                    if p >= 7 {
                        lemma_token_shift(seq![s[i]], r, p);
                    } else {
                        assert(o[0] == s[i]);
                        assert(class_has(Class::Digit, o[0]));
                    }
                }
            }
        }
    }
}

} // verus!
