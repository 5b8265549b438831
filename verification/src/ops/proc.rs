//! Process and path facts for the ops console: bot recognition, the
//! guard port, the Herdr socket and the log file.
use crate::state::history::parse_usize_str;
use crate::state::history::parse_usize;
use crate::text::{at_pat, chars_of, char_is_space, is_space, str_eq, trim_str, trimmed};
use vstd::prelude::*;
use vstd::string::*;

verus! {

/// Default single-instance guard port.
pub const SINGLE_INSTANCE_PORT: u16 = 47319;

/// The bot's executable name.
pub open spec fn bot_name() -> Seq<char> {
    seq!['h', 'e', 'r', 'd', 'r', '-', 't', 'e', 'l', 'e', 'g', 'r', 'a', 'm']
}

/// `/herdr-telegram`.
pub open spec fn bot_suffix() -> Seq<char> {
    seq!['/'] + bot_name()
}

/// The daemon runs bare: the whole command line is the executable path.
/// A path-free name matches; a path with spaces must start like a path
/// (`/`, `.`, `~`) and hold no ` -` option; a line with a subcommand or
/// a `pgrep` invocation never ends in the bare name.
pub open spec fn looks_like_bot_spec(cmd: Seq<char>) -> bool {
    if cmd == bot_name() {
        true
    } else if cmd.len() >= bot_suffix().len() && cmd.subrange(
        cmd.len() - bot_suffix().len(),
        cmd.len() as int,
    ) == bot_suffix() {
        let prefix = cmd.subrange(0, cmd.len() - bot_suffix().len());
        if !exists|i: int| 0 <= i < prefix.len() && is_space(#[trigger] prefix[i]) {
            true
        } else {
            (prefix.len() > 0 && (prefix[0] == '/' || prefix[0] == '.' || prefix[0] == '~'))
                && !exists|i: int| 0 <= i < prefix.len() - 1 && #[trigger] prefix[i] == ' '
                    && prefix[i + 1] == '-'
        }
    } else {
        false
    }
}

/// Kill validation: argv-exact daemon match (fail-closed).
pub fn looks_like_bot(cmd: &str) -> (r: bool)
    ensures
        r == looks_like_bot_spec(cmd@),
{
    let v = chars_of(cmd);
    let name: Vec<char> = vec!['h', 'e', 'r', 'd', 'r', '-', 't', 'e', 'l', 'e', 'g', 'r', 'a', 'm'];
    let suffix: Vec<char> = vec![
        '/', 'h', 'e', 'r', 'd', 'r', '-', 't', 'e', 'l', 'e', 'g', 'r', 'a', 'm',
    ];
    assert(name@ =~= bot_name());
    assert(suffix@ =~= bot_suffix());
    let n = v.len();
    if n == 14 && at_pat(&v, 0, &name) {
        assert(v@ =~= v@.subrange(0, 14));
        return true;
    }
    proof {
        if v@ == bot_name() {
            assert(v@.subrange(0, 14) =~= v@);
        }
    }
    if n < 15 || !at_pat(&v, n - 15, &suffix) {
        return false;
    }
    let plen = n - 15;
    let ghost prefix = v@.subrange(0, plen as int);
    let mut i: usize = 0;
    let mut spaced = false;
    while i < plen
        invariant
            plen <= v@.len(),
            prefix == v@.subrange(0, plen as int),
            i <= plen,
            spaced == exists|j: int| 0 <= j < i && is_space(#[trigger] prefix[j]),
        decreases plen - i,
    {
        if char_is_space(v[i]) {
            assert(is_space(prefix[i as int]));
            spaced = true;
        }
        proof {
            if exists|j: int| 0 <= j < i + 1 && is_space(#[trigger] prefix[j]) {
                let j = choose|j: int| 0 <= j < i + 1 && is_space(#[trigger] prefix[j]);
                if j < i {
                    assert(exists|j: int| 0 <= j < i && is_space(#[trigger] prefix[j]));
                }
            }
        }
        i = i + 1;
    }
    if !spaced {
        return true;
    }
    if plen == 0 {
        return false;
    }
    let c0 = v[0];
    if !(c0 == '/' || c0 == '.' || c0 == '~') {
        return false;
    }
    let mut k: usize = 0;
    let mut dash = false;
    while k < plen - 1
        invariant
            0 < plen <= v@.len(),
            prefix == v@.subrange(0, plen as int),
            k <= plen - 1,
            dash == exists|j: int| 0 <= j < k && #[trigger] prefix[j] == ' ' && prefix[j + 1] == '-',
        decreases plen - k,
    {
        if v[k] == ' ' && v[k + 1] == '-' {
            assert(prefix[k as int] == ' ' && prefix[k + 1] == '-');
            dash = true;
        }
        proof {
            if exists|j: int| 0 <= j < k + 1 && #[trigger] prefix[j] == ' ' && prefix[j + 1] == '-' {
                let j = choose|j: int| 0 <= j < k + 1 && #[trigger] prefix[j] == ' ' && prefix[j + 1] == '-';
                if j < k {
                    assert(exists|j: int| 0 <= j < k && #[trigger] prefix[j] == ' ' && prefix[j + 1] == '-');
                }
            }
        }
        k = k + 1;
    }
    !dash
}

/// `u16::from_str`.
pub open spec fn parse_u16(s: Seq<char>) -> Option<nat> {
    match parse_usize(s) {
        Some(v) => if v <= 65535 {
            Some(v)
        } else {
            None
        },
        None => None,
    }
}

/// An unusable `HERDR_TG_PORT` value.
#[derive(Debug, PartialEq, Eq, Structural, Clone, Copy)]
pub enum PortError {
    Invalid,
}

impl PortError {
    /// The operator-facing message.
    pub fn message(&self) -> (m: &'static str)
        ensures
            m@ == "HERDR_TG_PORT invalid (must be a port number)"@,
    {
        "HERDR_TG_PORT invalid (must be a port number)"
    }
}

/// Guard port from the configured value (env or `.env`): absent → the
/// compiled default; present → its trimmed text must parse as a port
/// number other than 0 (port 0 would bind an ephemeral port and defeat
/// the single-instance guard).
pub fn guard_port(value: Option<&str>) -> (r: Result<u16, PortError>)
    ensures
        r == match value {
            None => Ok(SINGLE_INSTANCE_PORT),
            Some(v) => match parse_u16(trimmed(v@)) {
                Some(p) => if p == 0 {
                    Err(PortError::Invalid)
                } else {
                    Ok(p as u16)
                },
                None => Err(PortError::Invalid),
            },
        },
{
    match value {
        None => Ok(SINGLE_INSTANCE_PORT),
        Some(v) => {
            let t = trim_str(v);
            match parse_usize_str(t.as_str()) {
                Some(p) => if p == 0 || p > 65535 {
                    Err(PortError::Invalid)
                } else {
                    Ok(p as u16)
                },
                None => Err(PortError::Invalid),
            }
        },
    }
}

/// `~/` as characters.
pub open spec fn tilde_slash() -> Seq<char> {
    seq!['~', '/']
}

/// Herdr socket path shown by the status row, from the configured raw
/// value and `$HOME`: no home → the trimmed raw value; empty → the
/// default under `~/.config`; a `~/rest` value expands (a bare `~/`
/// stays raw); anything else stays as given.
pub open spec fn herdr_socket_spec(raw: Seq<char>, home: Seq<char>) -> Seq<char> {
    let v = trimmed(raw);
    if home.len() == 0 {
        v
    } else if v.len() == 0 {
        home + "/.config/herdr/herdr.sock"@
    } else if v.len() > 2 && v.subrange(0, 2) == tilde_slash() {
        home + seq!['/'] + v.subrange(2, v.len() as int)
    } else {
        v
    }
}

/// Herdr socket path (same default and `~/` expansion as the daemon).
pub fn herdr_socket(raw: &str, home: &str) -> (p: String)
    ensures
        p@ == herdr_socket_spec(raw@, home@),
{
    let v = trim_str(raw);
    if home.unicode_len() == 0 {
        return v;
    }
    let n = v.as_str().unicode_len();
    if n == 0 {
        let mut p = String::new();
        p.append(home);
        p.append("/.config/herdr/herdr.sock");
        return p;
    }
    if n > 2 && v.as_str().get_char(0) == '~' && v.as_str().get_char(1) == '/' {
        assert(v@.subrange(0, 2) =~= tilde_slash());
        let rest = v.as_str().substring_char(2, n);
        let mut p = String::new();
        p.append(home);
        p.append("/");
        p.append(rest);
        proof {
            reveal_strlit("/");
        }
        return p;
    }
    proof {
        if n > 2 && v@.subrange(0, 2) == tilde_slash() {
            assert(v@[0] == v@.subrange(0, 2)[0]);
            assert(v@[1] == v@.subrange(0, 2)[1]);
        }
    }
    v
}

/// The bot log file (repo working directory).
pub fn log_path() -> (p: String)
    ensures
        p@ == "bot.log"@,
{
    String::from_str("bot.log")
}

/// Whitespace-separated words of `s` (`str::split_whitespace`), scanned
/// from `i` with the word `cur` in progress and the words `acc` found.
pub open spec fn words_from(s: Seq<char>, i: int, cur: Seq<char>, acc: Seq<Seq<char>>) -> Seq<Seq<char>>
    decreases s.len() - i,
{
    if i < 0 || i >= s.len() {
        if cur.len() > 0 {
            acc.push(cur)
        } else {
            acc
        }
    } else if is_space(s[i]) {
        words_from(
            s,
            i + 1,
            Seq::empty(),
            if cur.len() > 0 {
                acc.push(cur)
            } else {
                acc
            },
        )
    } else {
        words_from(s, i + 1, cur.push(s[i]), acc)
    }
}

/// The words of `s`.
pub open spec fn words(s: Seq<char>) -> Seq<Seq<char>> {
    words_from(s, 0, Seq::empty(), Seq::empty())
}

/// Split a text into its whitespace-separated words.
pub fn split_words(s: &str) -> (ws: Vec<String>)
    ensures
        ws@.map_values(|w: String| w@) == words(s@),
{
    let v = chars_of(s);
    let n = v.len();
    let mut ws: Vec<String> = Vec::new();
    let mut cur = String::new();
    let mut i: usize = 0;
    assert(ws@.map_values(|w: String| w@) =~= Seq::<Seq<char>>::empty());
    assert(cur@ =~= Seq::<char>::empty());
    while i < n
        invariant
            i <= n,
            n == s@.len(),
            v@ == s@,
            words(s@) == words_from(s@, i as int, cur@, ws@.map_values(|w: String| w@)),
        decreases n - i,
    {
        let c = v[i];
        if char_is_space(c) {
            if cur.unicode_len() > 0 {
                let ghost before = ws@.map_values(|w: String| w@);
                let done = cur;
                ws.push(done);
                cur = String::new();
                assert(ws@.map_values(|w: String| w@) =~= before.push(done@));
                assert(cur@ =~= Seq::<char>::empty());
            } else {
                cur = String::new();
                assert(cur@ =~= Seq::<char>::empty());
            }
        } else {
            crate::text::push_char(&mut cur, c);
        }
        i = i + 1;
    }
    if cur.unicode_len() > 0 {
        let ghost before = ws@.map_values(|w: String| w@);
        let done = cur;
        ws.push(done);
        assert(ws@.map_values(|w: String| w@) =~= before.push(done@));
    }
    ws
}

/// `u32::from_str`.
pub open spec fn parse_u32(s: Seq<char>) -> Option<nat> {
    match parse_usize(s) {
        Some(v) => if v <= u32::MAX {
            Some(v)
        } else {
            None
        },
        None => None,
    }
}

fn parse_u32_str(s: &str) -> (r: Option<u32>)
    ensures
        match r {
            Some(v) => parse_u32(s@) == Some(v as nat),
            None => parse_u32(s@) is None,
        },
{
    match parse_usize_str(s) {
        Some(v) => if v <= 4294967295usize {
            Some(v as u32)
        } else {
            None
        },
        None => None,
    }
}

/// Process ids among `ws` (words that parse as `u32`), except `me`.
pub open spec fn pids_of(ws: Seq<Seq<char>>, me: u32) -> Seq<u32>
    decreases ws.len(),
{
    if ws.len() == 0 {
        Seq::empty()
    } else {
        let rest = pids_of(ws.drop_last(), me);
        match parse_u32(ws.last()) {
            Some(p) => if p == me {
                rest
            } else {
                rest.push(p as u32)
            },
            None => rest,
        }
    }
}

/// Candidate bot pids in a `pgrep` listing: every word that is a pid,
/// in order, except our own (each still needs its command line checked
/// with [`looks_like_bot`]).
pub fn pid_candidates(listing: &str, me: u32) -> (pids: Vec<u32>)
    ensures
        pids@ == pids_of(words(listing@), me),
{
    let ws = split_words(listing);
    let ghost wv = ws@.map_values(|w: String| w@);
    let mut pids: Vec<u32> = Vec::new();
    let mut i: usize = 0;
    while i < ws.len()
        invariant
            i <= ws@.len(),
            wv == ws@.map_values(|w: String| w@),
            wv == words(listing@),
            pids@ == pids_of(wv.take(i as int), me),
        decreases ws@.len() - i,
    {
        assert(wv.take(i + 1).drop_last() =~= wv.take(i as int));
        assert(wv.take(i + 1).last() == ws@[i as int]@);
        match parse_u32_str(ws[i].as_str()) {
            Some(p) => {
                if p != me {
                    pids.push(p);
                }
            },
            None => {},
        }
        i = i + 1;
    }
    assert(wv.take(ws@.len() as int) =~= wv);
    pids
}

/// The first word of an `lsof` listing as a pid (none when the listing is
/// empty or its first word is not a pid).
pub fn first_pid(listing: &str) -> (p: Option<u32>)
    ensures
        p == (if words(listing@).len() > 0 {
            match parse_u32(words(listing@)[0]) {
                Some(v) => Some(v as u32),
                None => None,
            }
        } else {
            None
        }),
{
    let ws = split_words(listing);
    if ws.len() == 0 {
        return None;
    }
    assert(ws@[0]@ == words(listing@)[0]);
    parse_u32_str(ws[0].as_str())
}

/// Pids a stop-all signals: the bot pids, then the guard-port holder if
/// not already listed, never our own process.
pub open spec fn kill_targets_spec(bots: Seq<u32>, port: Option<u32>, me: u32) -> Seq<u32> {
    let all = match port {
        Some(p) => if bots.contains(p) {
            bots
        } else {
            bots.push(p)
        },
        None => bots,
    };
    all.filter(not_pid(me))
}

/// Every pid but `me`.
pub open spec fn not_pid(me: u32) -> spec_fn(u32) -> bool {
    |p: u32| p != me
}

/// Stop-all stops every bot and the guard-port holder, and never
/// ourselves: each bot pid other than our own is a target whatever the
/// port holder is, so is the port holder unless it is us, our own pid
/// never is, and nothing else is.
pub proof fn law_kill_targets_cover_bots(bots: Seq<u32>, port: Option<u32>, me: u32)
    ensures
        forall|p: u32| bots.contains(p) && p != me ==> #[trigger] kill_targets_spec(bots, port, me).contains(p),
        forall|q: u32| port == Some(q) && q != me ==> #[trigger] kill_targets_spec(bots, port, me).contains(q),
        !kill_targets_spec(bots, port, me).contains(me),
        forall|p: u32| #[trigger] kill_targets_spec(bots, port, me).contains(p) ==> bots.contains(p)
            || port == Some(p),
{
    let all = match port {
        Some(p) => if bots.contains(p) {
            bots
        } else {
            bots.push(p)
        },
        None => bots,
    };
    let f = not_pid(me);
    assert forall|p: u32| bots.contains(p) && p != me implies #[trigger] kill_targets_spec(bots, port, me).contains(p) by {
        let i = choose|i: int| 0 <= i < bots.len() && bots[i] == p;
        assert(all[i] == p);
        all.lemma_filter_contains(f, i);
    }
    assert forall|q: u32| port == Some(q) && q != me implies #[trigger] kill_targets_spec(bots, port, me).contains(q) by {
        if bots.contains(q) {
            let i = choose|i: int| 0 <= i < bots.len() && bots[i] == q;
            assert(all[i] == q);
            all.lemma_filter_contains(f, i);
        } else {
            assert(all[bots.len() as int] == q);
            all.lemma_filter_contains(f, bots.len() as int);
        }
    }
    if kill_targets_spec(bots, port, me).contains(me) {
        let i = choose|i: int| 0 <= i < all.filter(f).len() && all.filter(f)[i] == me;
        all.lemma_filter_pred(f, i);
    }
    assert forall|p: u32| #[trigger] kill_targets_spec(bots, port, me).contains(p) implies bots.contains(p)
        || port == Some(p) by {
        all.lemma_filter_contains_rev(f, p);
        if !bots.contains(p) {
            let i = choose|i: int| 0 <= i < all.len() && all[i] == p;
            if i < bots.len() {
                assert(bots[i] == p);
            }
        }
    }
}

/// The stop-all target list.
pub fn kill_targets(bots: &Vec<u32>, port: Option<u32>, me: u32) -> (t: Vec<u32>)
    ensures
        t@ == kill_targets_spec(bots@, port, me),
{
    let mut all: Vec<u32> = Vec::new();
    let mut listed = false;
    let mut i: usize = 0;
    while i < bots.len()
        invariant
            i <= bots@.len(),
            all@ == bots@.take(i as int),
            listed == (match port {
                Some(p) => bots@.take(i as int).contains(p),
                None => false,
            }),
        decreases bots@.len() - i,
    {
        let b = bots[i];
        all.push(b);
        proof {
            assert(bots@.take(i + 1) =~= bots@.take(i as int).push(b));
        }
        match port {
            Some(p) => {
                if b == p {
                    listed = true;
                    assert(bots@.take(i + 1)[i as int] == p);
                }
            },
            None => {},
        }
        i = i + 1;
    }
    assert(bots@.take(bots@.len() as int) =~= bots@);
    match port {
        Some(p) => {
            if !listed {
                all.push(p);
            }
        },
        None => {},
    }
    let ghost a = all@;
    let ghost keep = not_pid(me);
    let mut t: Vec<u32> = Vec::new();
    let mut j: usize = 0;
    while j < all.len()
        invariant
            j <= all@.len(),
            a == all@,
            keep == not_pid(me),
            t@ == a.take(j as int).filter(keep),
        decreases all@.len() - j,
    {
        proof {
            assert(a.take(j + 1) =~= a.take(j as int).push(a[j as int]));
            a.take(j as int).lemma_filter_push(a[j as int], keep);
        }
        if all[j] != me {
            t.push(all[j]);
        }
        j = j + 1;
    }
    assert(a.take(a.len() as int) =~= a);
    t
}

} // verus!
