//! Scoped `/cancel` outside a pane topic: `all` cancels everything, a
//! named pane cancels one, a bare command follows the focus, and a typo
//! is echoed back instead of cancelling the focus.
use crate::text::{
    is_blank,
    append_range, char_is_space, chars_of, is_space, join_strings, join_with, lead_spaces,
    lemma_lead_spaces_from, lemma_run_len_bound, run_len, str_eq,
};
use crate::order::{sorted_texts, texts};
use crate::state::books::{episode_dropped, stopped_next, waiters_dropped, Books, GlobalCancel, JobTag, Retire};
use vstd::prelude::*;
use vstd::string::*;

verus! {

/// A character is not whitespace.
pub open spec fn not_space() -> spec_fn(char) -> bool {
    |c: char| !is_space(c)
}

/// A character is `#`.
pub open spec fn hash_mark() -> spec_fn(char) -> bool {
    |c: char| c == '#'
}

/// The first whitespace-separated word (empty when there is none).
pub open spec fn first_word(s: Seq<char>) -> Seq<char> {
    let l = lead_spaces(s) as int;
    s.subrange(l, l + run_len(s, l, not_space()))
}

/// A word without its leading `#`s.
pub open spec fn strip_hashes(w: Seq<char>) -> Seq<char> {
    w.subrange(run_len(w, 0, hash_mark()) as int, w.len() as int)
}

/// `all`, ASCII case-insensitively.
pub open spec fn is_all(w: Seq<char>) -> bool {
    w.len() == 3 && (w[0] == 'a' || w[0] == 'A') && (w[1] == 'l' || w[1] == 'L') && (w[2] == 'l'
        || w[2] == 'L')
}

/// What a scoped cancel targets.
#[derive(Debug, PartialEq, Eq)]
pub enum CancelScope {
    /// Every pane.
    All,
    /// This pane, which has work.
    Pane(String),
    /// This pane, which has no work.
    NoJob(String),
    /// No pane named and nothing focused.
    NothingFocused,
}

/// A scope by its panes' characters.
pub enum ScopeView {
    All,
    Pane(Seq<char>),
    NoJob(Seq<char>),
    NothingFocused,
}

impl View for CancelScope {
    type V = ScopeView;

    open spec fn view(&self) -> ScopeView {
        match self {
            CancelScope::All => ScopeView::All,
            CancelScope::Pane(p) => ScopeView::Pane(p@),
            CancelScope::NoJob(p) => ScopeView::NoJob(p@),
            CancelScope::NothingFocused => ScopeView::NothingFocused,
        }
    }
}

/// The scope of `/cancel <arg>` with the panes that have work and the
/// focus: the first word names the pane (leading `#`s dropped; a word of
/// `#`s only is kept as typed, never read as the focus).
pub open spec fn scope_spec(arg: Seq<char>, running: Seq<Seq<char>>, focus: Option<Seq<char>>) -> ScopeView {
    let raw = first_word(arg);
    let name = strip_hashes(raw);
    if is_all(name) {
        ScopeView::All
    } else {
        let target = if name.len() > 0 {
            Some(name)
        } else if raw.len() > 0 {
            Some(raw)
        } else {
            focus
        };
        match target {
            Some(p) => if running.contains(p) {
                ScopeView::Pane(p)
            } else {
                ScopeView::NoJob(p)
            },
            None => ScopeView::NothingFocused,
        }
    }
}

/// `/cancel` cancels every pane only when asked to: the scope is All only
/// when the first word, leading `#`s dropped, is `all` in any letter
/// case. A bare `/cancel` (blank argument) follows the focus: the focused
/// pane is cancelled when it has work and reported (nothing cancelled)
/// when it has none; with no focus nothing is cancelled.
pub proof fn law_cancel_scope_all_only_when_asked(
    arg: Seq<char>,
    running: Seq<Seq<char>>,
    focus: Option<Seq<char>>,
)
    ensures
        scope_spec(arg, running, focus) is All ==> is_all(strip_hashes(first_word(arg))),
        is_blank(arg) ==> scope_spec(arg, running, focus) == match focus {
            Some(f) => if running.contains(f) {
                ScopeView::Pane(f)
            } else {
                ScopeView::NoJob(f)
            },
            None => ScopeView::NothingFocused,
        },
{
    if is_blank(arg) {
        lemma_lead_spaces_from(arg, arg.len() as int);
        let l = lead_spaces(arg) as int;
        assert(run_len(arg, l, not_space()) == 0);
        assert(first_word(arg) =~= Seq::<char>::empty());
        assert(run_len(Seq::<char>::empty(), 0, hash_mark()) == 0);
        assert(strip_hashes(first_word(arg)) =~= Seq::<char>::empty());
    }
}

fn first_word_of(s: &str) -> (w: Vec<char>)
    ensures
        w@ == first_word(s@),
{
    let v = chars_of(s);
    let n = v.len();
    let mut a: usize = 0;
    while a < n && char_is_space(v[a])
        invariant
            a <= n,
            n == v@.len(),
            forall|j: int| 0 <= j < a ==> is_space(#[trigger] v@[j]),
        decreases n - a,
    {
        a = a + 1;
    }
    proof {
        lemma_lead_spaces_from(v@, a as int);
        lemma_run_len_bound(v@, a as int, not_space());
    }
    let mut b: usize = a;
    while b < n && !char_is_space(v[b])
        invariant
            a <= b <= n,
            n == v@.len(),
            run_len(v@, a as int, not_space()) == (b - a) + run_len(v@, b as int, not_space()),
        decreases n - b,
    {
        b = b + 1;
    }
    let mut w: Vec<char> = Vec::new();
    let mut k: usize = a;
    while k < b
        invariant
            a <= k <= b <= n,
            n == v@.len(),
            w@ == v@.subrange(a as int, k as int),
        decreases b - k,
    {
        w.push(v[k]);
        k = k + 1;
        assert(w@ =~= v@.subrange(a as int, k as int));
    }
    w
}

fn strip_hashes_of(w: &Vec<char>) -> (r: Vec<char>)
    ensures
        r@ == strip_hashes(w@),
{
    let n = w.len();
    proof {
        lemma_run_len_bound(w@, 0, hash_mark());
    }
    let mut a: usize = 0;
    while a < n && w[a] == '#'
        invariant
            a <= n,
            n == w@.len(),
            run_len(w@, 0, hash_mark()) == a + run_len(w@, a as int, hash_mark()),
        decreases n - a,
    {
        a = a + 1;
    }
    let mut r: Vec<char> = Vec::new();
    let mut k: usize = a;
    while k < n
        invariant
            a <= k <= n,
            n == w@.len(),
            r@ == w@.subrange(a as int, k as int),
        decreases n - k,
    {
        r.push(w[k]);
        k = k + 1;
        assert(r@ =~= w@.subrange(a as int, k as int));
    }
    r
}

fn string_of(v: &Vec<char>) -> (s: String)
    ensures
        s@ == v@,
{
    let mut s = String::new();
    append_range(&mut s, v, 0, v.len());
    assert(v@.subrange(0, v@.len() as int) =~= v@);
    s
}

fn listed(running: &Vec<String>, p: &str) -> (r: bool)
    ensures
        r == running@.map_values(|s: String| s@).contains(p@),
{
    let ghost rs = running@.map_values(|s: String| s@);
    let mut i: usize = 0;
    while i < running.len()
        invariant
            i <= running@.len(),
            rs == running@.map_values(|s: String| s@),
            forall|j: int| 0 <= j < i ==> rs[j] != p@,
        decreases running@.len() - i,
    {
        if str_eq(running[i].as_str(), p) {
            assert(rs[i as int] == p@);
            return true;
        }
        i = i + 1;
    }
    false
}

/// Scope of a scoped cancel (see [`scope_spec`]).
pub fn cancel_scope(arg: &str, running: &Vec<String>, focus: Option<&str>) -> (sc: CancelScope)
    ensures
        sc@ == scope_spec(
            arg@,
            running@.map_values(|s: String| s@),
            match focus {
                Some(f) => Some(f@),
                None => None,
            },
        ),
{
    let raw = first_word_of(arg);
    let name = strip_hashes_of(&raw);
    if name.len() == 3 && (name[0] == 'a' || name[0] == 'A') && (name[1] == 'l' || name[1] == 'L')
        && (name[2] == 'l' || name[2] == 'L') {
        return CancelScope::All;
    }
    let target: Option<String> = if name.len() > 0 {
        Some(string_of(&name))
    } else if raw.len() > 0 {
        Some(string_of(&raw))
    } else {
        match focus {
            Some(f) => Some(f.to_string()),
            None => None,
        }
    };
    match target {
        Some(p) => if listed(running, p.as_str()) {
            CancelScope::Pane(p)
        } else {
            CancelScope::NoJob(p)
        },
        None => CancelScope::NothingFocused,
    }
}

/// The running panes as listed in a reply: `none`, or joined by `, `.
pub open spec fn running_list(running: Seq<Seq<char>>) -> Seq<char> {
    if running.len() == 0 {
        "none"@
    } else {
        join_with(running, ", "@)
    }
}

/// The acknowledgement of a scoped cancel; `running` as listed to the
/// owner (the caller orders it), `cancelled` the count a global cancel
/// reports.
pub open spec fn cancel_reply_spec(sc: ScopeView, running: Seq<Seq<char>>) -> Seq<char> {
    match sc {
        ScopeView::All => "✋ cancelled "@ + crate::text::decimal(running.len()) + " pending job(s) (all panes)"@,
        ScopeView::Pane(p) => "✋ cancelled "@ + p,
        ScopeView::NoJob(p) => "no job for "@ + p + " — running: "@ + running_list(running),
        ScopeView::NothingFocused => "nothing focused — running: "@ + running_list(running)
            + " — /cancel <pane> or /cancel all"@,
    }
}

/// Render the acknowledgement of a scoped cancel.
pub fn cancel_reply(sc: &CancelScope, running: &Vec<String>) -> (t: String)
    ensures
        t@ == cancel_reply_spec(sc@, running@.map_values(|s: String| s@)),
{
    let mut list = String::new();
    if running.len() == 0 {
        list.append("none");
    } else {
        let j = join_strings(running, ", ");
        list.append(j.as_str());
    }
    let mut t = String::new();
    match sc {
        CancelScope::All => {
            t.append("✋ cancelled ");
            crate::text::append_decimal(&mut t, running.len() as u64);
            t.append(" pending job(s) (all panes)");
        },
        CancelScope::Pane(p) => {
            t.append("✋ cancelled ");
            t.append(p.as_str());
        },
        CancelScope::NoJob(p) => {
            t.append("no job for ");
            t.append(p.as_str());
            t.append(" — running: ");
            t.append(list.as_str());
        },
        CancelScope::NothingFocused => {
            t.append("nothing focused — running: ");
            t.append(list.as_str());
            t.append(" — /cancel <pane> or /cancel all");
        },
    }
    t
}

/// The panes with work in `b`, each once, sorted.
pub open spec fn running_of(b: &Books) -> Seq<Seq<char>> {
    sorted_texts(b.jobs@.dom().union(b.intents@.dom()))
}

/// The books after a global cancel that reported `g` at `now`: no job,
/// intent, waiter, settle arm or stall episode is left, the retired jobs
/// are the old jobs, and every pane that owned work is done-stamped.
pub open spec fn all_cancelled(old: &Books, new: &Books, g: &GlobalCancel, now: u64) -> bool {
    &&& g.owned@ == old.jobs@.dom().union(old.intents@.dom())
    &&& g.count == old.jobs@.dom().len()
    &&& g.retired@.len() == g.count
    &&& forall|i: int|
        0 <= i < g.retired@.len() ==> old.jobs@.contains_key((#[trigger] g.retired@[i]).0@)
            && stopped_next(old.jobs@[g.retired@[i].0@]) == g.retired@[i].1
    &&& new.jobs@ == Map::<Seq<char>, JobTag>::empty()
    &&& new.intents@.dom() == Set::<Seq<char>>::empty()
    &&& new.debounce@ == Map::<Seq<char>, (String, u64)>::empty()
    &&& new.limit_alert@ == Map::<Seq<char>, (String, u64)>::empty()
    &&& new.limit_seen@ == Map::<Seq<char>, (String, u64)>::empty()
    &&& new.limit_miss@ == Map::<Seq<char>, u32>::empty()
    &&& new.limit_send_cool@ == Map::<Seq<char>, u64>::empty()
    &&& new.typewait@.len() == 0
    &&& new.keywait@.len() == 0
    &&& new.runwait@.len() == 0
    &&& forall|k: Seq<char>|
        #[trigger] new.last_done@.contains_key(k) == (old.last_done@.contains_key(k) || g.owned@.contains(k))
    &&& forall|k: Seq<char>|
        #[trigger] new.last_done@.contains_key(k) ==> new.last_done@[k] == (if g.owned@.contains(k) {
            now
        } else {
            old.last_done@[k]
        })
}

/// The books after the loud retire of `pane` at `now` that reported `r`
/// (see [`Books::cancel_jobs_for`]).
pub open spec fn pane_cancelled(old: &Books, new: &Books, pane: Seq<char>, r: Retire, now: u64) -> bool {
    &&& r.notify == old.jobs@.contains_key(pane)
    &&& r.done == (old.jobs@.contains_key(pane) || old.intents@.contains_key(pane))
    &&& r.job == (if old.jobs@.contains_key(pane) {
        Some(stopped_next(old.jobs@[pane]))
    } else {
        None
    })
    &&& r.stop_typing == (old.jobs@.contains_key(pane) || !old.intents@.contains_key(pane))
    &&& new.jobs@ == old.jobs@.remove(pane)
    &&& new.intents@ == old.intents@.remove(pane)
    &&& new.debounce@ == old.debounce@.remove(pane)
    &&& new.last_done@ == old.last_done@.insert(pane, now)
    &&& episode_dropped(old, new, pane)
    &&& waiters_dropped(old, new, pane)
}

/// What a scoped cancel carried out.
pub enum ScopedCancel {
    /// Every pane: the global cancel's report.
    All(GlobalCancel),
    /// One pane with work: its retire.
    Pane(Retire),
    /// Nothing was cancelled.
    Nothing,
}

impl Books {
    /// Scoped `/cancel` from General or a DM: `pane_arg` is resolved
    /// over the panes with work (sorted) and the focus; `all` cancels
    /// every pane, a pane with work is retired loudly, anything else
    /// cancels nothing. Returns the acknowledgement (the count and list
    /// as they stood before the cancel) and what was carried out.
    pub fn cancel_scoped(&mut self, pane_arg: &str, focus: Option<&str>, now: u64) -> (r: (String, ScopedCancel))
        ensures
            ({
                let running = running_of(&*old(self));
                let sc = scope_spec(
                    pane_arg@,
                    running,
                    match focus {
                        Some(f) => Some(f@),
                        None => None,
                    },
                );
                &&& r.0@ == cancel_reply_spec(sc, running)
                &&& match sc {
                    ScopeView::All => r.1 matches ScopedCancel::All(g) && all_cancelled(&*old(self), &*final(self), &g, now),
                    ScopeView::Pane(p) => r.1 matches ScopedCancel::Pane(q) && pane_cancelled(&*old(self), &*final(self), p, q, now),
                    _ => r.1 is Nothing && *final(self) == *old(self),
                }
            }),
    {
        let running = self.running_panes();
        assert(texts(running@) =~= running@.map_values(|s: String| s@));
        let sc = cancel_scope(pane_arg, &running, focus);
        let reply = cancel_reply(&sc, &running);
        let done = match &sc {
            CancelScope::All => ScopedCancel::All(self.cancel_all_jobs(now)),
            CancelScope::Pane(p) => ScopedCancel::Pane(self.cancel_jobs_for(p.as_str(), now)),
            _ => ScopedCancel::Nothing,
        };
        (reply, done)
    }
}

} // verus!
