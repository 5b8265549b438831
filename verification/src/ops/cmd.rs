//! One-shot console commands: the status report, the follow/tail window
//! arithmetic over the log file, and the topic count of the topic store.
use crate::text::{append_decimal, decimal, push_char};
use vstd::prelude::*;
use vstd::string::*;

verus! {

/// Status snapshot as gathered by the console (raw; masked at print).
pub struct Status {
    pub bot_pids: Vec<u32>,
    pub port_pid: Option<u32>,
    pub socket_ok: bool,
    pub offset: Option<String>,
    pub topic_titles: usize,
    pub log_bytes: u64,
}

/// Process ids in decimal, comma-separated.
pub open spec fn joined_pids(p: Seq<u32>) -> Seq<char>
    decreases p.len(),
{
    if p.len() == 0 {
        Seq::empty()
    } else if p.len() == 1 {
        decimal(p[0] as nat)
    } else {
        joined_pids(p.drop_last()) + seq![','] + decimal(p.last() as nat)
    }
}

/// The report's lines, in order.
pub open spec fn status_spec(st: Status, port: u16, socket: Seq<char>) -> Seq<Seq<char>> {
    let bot = if st.bot_pids@.len() == 0 {
        "  Bot Status:   Stopped"@
    } else {
        "  Bot Status:   Running (PID: "@ + joined_pids(st.bot_pids@) + ")"@
    };
    let guard = match st.port_pid {
        Some(p) => "  Guard Port:   In use :"@ + decimal(port as nat) + " (PID: "@ + decimal(
            p as nat,
        ) + ")"@,
        None => "  Guard Port:   Free :"@ + decimal(port as nat),
    };
    let sock = "  Herdr Socket: "@ + (if st.socket_ok {
        "Available"@
    } else {
        "Not found"@
    }) + " ("@ + socket + ")"@;
    let head = seq!["=== HERDR TELEGRAM STATUS ==="@, bot, guard, sock];
    let off = match st.offset {
        Some(o) => seq!["  Offset State: "@ + o@],
        None => Seq::empty(),
    };
    head + off + seq![
        "  Topics State: ~"@ + decimal(st.topic_titles as nat) + " titles"@,
        "  Log File:     bot.log ("@ + decimal(st.log_bytes as nat) + " bytes)"@,
        "============================="@,
    ]
}

fn pid_list(p: &Vec<u32>) -> (s: String)
    ensures
        s@ == joined_pids(p@),
{
    let mut s = String::new();
    let n = p.len();
    if n == 0 {
        return s;
    }
    append_decimal(&mut s, p[0] as u64);
    let mut i: usize = 1;
    assert(p@.subrange(0, 1).drop_last() =~= Seq::<u32>::empty());
    assert(p@.subrange(0, 1) =~= seq![p@[0]]);
    while i < n
        invariant
            n == p@.len(),
            1 <= i <= n,
            s@ == joined_pids(p@.subrange(0, i as int)),
        decreases n - i,
    {
        push_char(&mut s, ',');
        append_decimal(&mut s, p[i] as u64);
        assert(p@.subrange(0, i as int + 1).drop_last() =~= p@.subrange(0, i as int));
        i = i + 1;
    }
    assert(p@.subrange(0, n as int) =~= p@);
    s
}

/// The status report for `st`, with the guard `port` and the herdr
/// `socket` path it was taken against.
pub fn status_lines(st: &Status, port: u16, socket: &str) -> (lines: Vec<String>)
    ensures
        lines@.map_values(|l: String| l@) == status_spec(*st, port, socket@),
{
    let mut lines: Vec<String> = Vec::new();
    lines.push(String::from_str("=== HERDR TELEGRAM STATUS ==="));
    let mut bot = String::new();
    if st.bot_pids.len() == 0 {
        bot.append("  Bot Status:   Stopped");
    } else {
        bot.append("  Bot Status:   Running (PID: ");
        let ids = pid_list(&st.bot_pids);
        bot.append(ids.as_str());
        bot.append(")");
    }
    lines.push(bot);
    let mut guard = String::new();
    match st.port_pid {
        Some(p) => {
            guard.append("  Guard Port:   In use :");
            append_decimal(&mut guard, port as u64);
            guard.append(" (PID: ");
            append_decimal(&mut guard, p as u64);
            guard.append(")");
        },
        None => {
            guard.append("  Guard Port:   Free :");
            append_decimal(&mut guard, port as u64);
        },
    }
    lines.push(guard);
    let mut sock = String::new();
    sock.append("  Herdr Socket: ");
    if st.socket_ok {
        sock.append("Available");
    } else {
        sock.append("Not found");
    }
    sock.append(" (");
    sock.append(socket);
    sock.append(")");
    lines.push(sock);
    match &st.offset {
        Some(o) => {
            let mut l = String::new();
            l.append("  Offset State: ");
            l.append(o.as_str());
            lines.push(l);
        },
        None => {},
    }
    let mut topics = String::new();
    topics.append("  Topics State: ~");
    append_decimal(&mut topics, st.topic_titles as u64);
    topics.append(" titles");
    lines.push(topics);
    let mut log = String::new();
    log.append("  Log File:     bot.log (");
    append_decimal(&mut log, st.log_bytes);
    log.append(" bytes)");
    lines.push(log);
    lines.push(String::from_str("============================="));
    assert(lines@.map_values(|l: String| l@) =~= status_spec(*st, port, socket@));
    lines
}

/// Bytes read from the log per poll or tail, at most.
pub const TAIL_CAP: u64 = 262144;

/// Size above which the log is rotated into one backup.
pub const ROTATE_LIMIT: u64 = 8388608;

/// Where a capped read of the window [`pos`, `len`) starts: at `pos`,
/// unless more than `cap` bytes lie between, then `cap` bytes before
/// `len` (the cursor jumps).
pub fn tail_start(pos: u64, len: u64, cap: u64) -> (start: u64)
    ensures
        start == (if pos + cap >= len {
            pos
        } else {
            (len - cap) as u64
        }),
{
    let floor = if len > cap {
        len - cap
    } else {
        0
    };
    if pos >= floor {
        pos
    } else {
        floor
    }
}

/// Length of the part of `bytes` made of whole lines: up to and with the
/// last newline, 0 when there is none (a partial trailing line waits for
/// the next poll).
pub fn complete_prefix(bytes: &[u8]) -> (end: usize)
    ensures
        end <= bytes@.len(),
        end == 0 || bytes@[end - 1] == 10u8,
        forall|j: int| end <= j < bytes@.len() ==> bytes@[j] != 10u8,
{
    let mut i = bytes.len();
    while i > 0
        invariant
            i <= bytes@.len(),
            forall|j: int| i <= j < bytes@.len() ==> bytes@[j] != 10u8,
        decreases i,
    {
        if bytes[i - 1] == 10u8 {
            return i;
        }
        i = i - 1;
    }
    0
}

/// The log is over the rotation limit.
pub fn needs_rotation(len: u64) -> (r: bool)
    ensures
        r == (len > ROTATE_LIMIT),
{
    len > ROTATE_LIMIT
}

/// Number of members of the top-level JSON object in `text`; none when
/// `text` is not JSON or not an object.
pub uninterp spec fn json_object_len(text: Seq<char>) -> Option<usize>;

/// Number of members of the JSON object under the top-level key `field`
/// of `text`; none when `text` is not JSON, has no such key, or the key
/// does not hold an object.
pub uninterp spec fn json_field_object_len(text: Seq<char>, field: Seq<char>) -> Option<usize>;

/// `serde_json::from_str` into a `Value`, then the member count of the
/// object it is (`Map::len`).
#[verifier::external_body]
fn object_len(text: &str) -> (r: Option<usize>)
    ensures
        r == json_object_len(text@),
{
    match serde_json::from_str::<serde_json::Value>(text) {
        Ok(serde_json::Value::Object(m)) => Some(m.len()),
        _ => None,
    }
}

/// `serde_json::from_str` into a `Value`, `Value::get(field)`, then the
/// member count of the object found there.
#[verifier::external_body]
fn field_object_len(text: &str, field: &str) -> (r: Option<usize>)
    ensures
        r == json_field_object_len(text@, field@),
{
    match serde_json::from_str::<serde_json::Value>(text) {
        Ok(v) => match v.get(field) {
            Some(serde_json::Value::Object(m)) => Some(m.len()),
            _ => None,
        },
        Err(_) => None,
    }
}

/// Topic count from the two object sizes of the store: the `topics`
/// object of the envelope when there is one, else the legacy flat map
/// (one member per pane), else 0.
pub fn topics_count(topics: Option<usize>, top: Option<usize>) -> (n: usize)
    ensures
        n == (match topics {
            Some(t) => t,
            None => match top {
                Some(m) => m,
                None => 0,
            },
        }),
{
    match topics {
        Some(t) => t,
        None => match top {
            Some(m) => m,
            None => 0,
        },
    }
}

/// Topic count of the topic store's text (parsed, never line-counted).
pub fn count_topics_in_text(text: &str) -> (n: usize)
    ensures
        n == (match json_field_object_len(text@, "topics"@) {
            Some(t) => t,
            None => match json_object_len(text@) {
                Some(m) => m,
                None => 0,
            },
        }),
{
    let topics = field_object_len(text, "topics");
    let top = object_len(text);
    topics_count(topics, top)
}

/// A line without its `\r` of a `\r\n` ending.
pub open spec fn strip_cr(c: Seq<char>) -> Seq<char> {
    if c.len() > 0 && c.last() == '\r' {
        c.drop_last()
    } else {
        c
    }
}

/// `str::lines` scanned from `i`, with the line `cur` in progress and the
/// lines `acc` found: lines end at `\n` (a `\r` before it is dropped);
/// a final line needs no ending.
pub open spec fn lines_from(s: Seq<char>, i: int, cur: Seq<char>, acc: Seq<Seq<char>>) -> Seq<Seq<char>>
    decreases s.len() - i,
{
    if i < 0 || i >= s.len() {
        if cur.len() > 0 {
            acc.push(cur)
        } else {
            acc
        }
    } else if s[i] == '\n' {
        lines_from(s, i + 1, Seq::empty(), acc.push(strip_cr(cur)))
    } else {
        lines_from(s, i + 1, cur.push(s[i]), acc)
    }
}

/// The lines of a text.
pub open spec fn lines_of(s: Seq<char>) -> Seq<Seq<char>> {
    lines_from(s, 0, Seq::empty(), Seq::empty())
}

/// Split a text into its lines (`str::lines`).
pub fn split_lines(s: &str) -> (ls: Vec<String>)
    ensures
        ls@.map_values(|l: String| l@) == lines_of(s@),
{
    let v = crate::text::chars_of(s);
    let n = v.len();
    let mut ls: Vec<String> = Vec::new();
    let mut cur: Vec<char> = Vec::new();
    let mut i: usize = 0;
    assert(ls@.map_values(|l: String| l@) =~= Seq::<Seq<char>>::empty());
    while i < n
        invariant
            i <= n,
            n == s@.len(),
            v@ == s@,
            lines_of(s@) == lines_from(s@, i as int, cur@, ls@.map_values(|l: String| l@)),
        decreases n - i,
    {
        let c = v[i];
        if c == '\n' {
            let k = cur.len();
            let end = if k > 0 && cur[k - 1] == '\r' {
                k - 1
            } else {
                k
            };
            let mut line = String::new();
            crate::text::append_range(&mut line, &cur, 0, end);
            proof {
                assert(cur@.subrange(0, end as int) =~= strip_cr(cur@));
            }
            let ghost before = ls@.map_values(|l: String| l@);
            ls.push(line);
            assert(ls@.map_values(|l: String| l@) =~= before.push(strip_cr(cur@)));
            cur = Vec::new();
            assert(cur@ =~= Seq::<char>::empty());
        } else {
            cur.push(c);
        }
        i = i + 1;
    }
    if cur.len() > 0 {
        let mut line = String::new();
        crate::text::append_range(&mut line, &cur, 0, cur.len());
        assert(cur@.subrange(0, cur@.len() as int) =~= cur@);
        let ghost before = ls@.map_values(|l: String| l@);
        ls.push(line);
        assert(ls@.map_values(|l: String| l@) =~= before.push(cur@));
    }
    ls
}

/// The last `n` lines of a text (all of them when it has fewer).
pub fn last_lines(s: &str, n: usize) -> (ls: Vec<String>)
    ensures
        ls@.map_values(|l: String| l@) == lines_of(s@).subrange(
            if lines_of(s@).len() > n {
                lines_of(s@).len() - n
            } else {
                0
            },
            lines_of(s@).len() as int,
        ),
{
    let all = split_lines(s);
    let ghost av = all@.map_values(|l: String| l@);
    let skip = if all.len() > n {
        all.len() - n
    } else {
        0
    };
    let mut ls: Vec<String> = Vec::new();
    let mut i: usize = skip;
    while i < all.len()
        invariant
            skip <= i <= all@.len(),
            av == all@.map_values(|l: String| l@),
            ls@.map_values(|l: String| l@) == av.subrange(skip as int, i as int),
        decreases all@.len() - i,
    {
        let ghost before = ls@.map_values(|l: String| l@);
        let c = all[i].clone();
        assert(c@ == av[i as int]);
        ls.push(c);
        assert(ls@.map_values(|l: String| l@) =~= before.push(av[i as int]));
        assert(av.subrange(skip as int, i + 1) =~= av.subrange(skip as int, i as int).push(av[i as int]));
        i = i + 1;
    }
    ls
}

} // verus!
