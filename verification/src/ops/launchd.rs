//! launchd service description for the production install: the plist
//! that keeps the release binary running, plus the gates around it.
use crate::text::{append_chars, at, at_pat, chars_of, join_path, join_spec, push_char};
use vstd::prelude::*;
use vstd::string::*;

verus! {

/// Service label.
pub const LABEL: &'static str = "dev.herdr.telegram";

/// Where the agent plist lives below `$HOME`.
pub const PLIST_REL: &'static str = "Library/LaunchAgents/dev.herdr.telegram.plist";

/// Plist path for a home directory.
pub fn plist_path(home: &str) -> (p: String)
    ensures
        p@ == join_spec(home@, PLIST_REL@),
{
    join_path(home, PLIST_REL)
}

/// Position of the last `/`, if any.
pub open spec fn last_slash(s: Seq<char>) -> Option<int>
    decreases s.len(),
{
    if s.len() == 0 {
        None
    } else if s.last() == '/' {
        Some(s.len() - 1)
    } else {
        last_slash(s.drop_last())
    }
}

/// `target/release`.
pub open spec fn release_dir() -> Seq<char> {
    seq!['t', 'a', 'r', 'g', 'e', 't', '/', 'r', 'e', 'l', 'e', 'a', 's', 'e']
}

/// The path's last three `/`-components are `target`, `release` and a
/// non-empty file name.
pub open spec fn release_exe_spec(exe: Seq<char>) -> bool {
    match last_slash(exe) {
        None => false,
        Some(k) => k + 1 < exe.len() && {
            let dir = exe.subrange(0, k);
            dir == release_dir() || (dir.len() > release_dir().len() && dir.subrange(
                dir.len() - release_dir().len() - 1,
                dir.len() as int,
            ) == seq!['/'] + release_dir())
        },
    }
}

proof fn lemma_last_slash(s: Seq<char>)
    ensures
        match last_slash(s) {
            Some(k) => 0 <= k < s.len() && s[k] == '/' && forall|j: int| k < j < s.len() ==> s[j]
                != '/',
            None => forall|j: int| 0 <= j < s.len() ==> s[j] != '/',
        },
    decreases s.len(),
{
    if s.len() > 0 && s.last() != '/' {
        let t = s.drop_last();
        lemma_last_slash(t);
        assert forall|j: int| 0 <= j < t.len() implies t[j] == s[j] by {}
    }
}

/// The last `/`-component of a path (the whole path without a `/`).
pub open spec fn last_component(s: Seq<char>) -> Seq<char> {
    match last_slash(s) {
        Some(k) => s.subrange(k + 1, s.len() as int),
        None => s,
    }
}

/// The path without its last component (none without a `/`).
pub open spec fn parent(s: Seq<char>) -> Option<Seq<char>> {
    match last_slash(s) {
        Some(k) => Some(s.subrange(0, k)),
        None => None,
    }
}

/// `release`.
pub open spec fn release_word() -> Seq<char> {
    seq!['r', 'e', 'l', 'e', 'a', 's', 'e']
}

/// `target`.
pub open spec fn target_word() -> Seq<char> {
    seq!['t', 'a', 'r', 'g', 'e', 't']
}

/// Split at `/`, the path has at least three components, the last is
/// not empty, and the two before it are exactly `target` and `release`.
pub open spec fn release_components(exe: Seq<char>) -> bool {
    &&& parent(exe) is Some
    &&& last_component(exe).len() > 0
    &&& last_component(parent(exe)->0) == release_word()
    &&& parent(parent(exe)->0) is Some
    &&& last_component(parent(parent(exe)->0)->0) == target_word()
}

proof fn lemma_last_slash_is(s: Seq<char>, k: int)
    requires
        0 <= k < s.len(),
        s[k] == '/',
        forall|j: int| k < j < s.len() ==> s[j] != '/',
    ensures
        last_slash(s) == Some(k),
{
    lemma_last_slash(s);
    match last_slash(s) {
        Some(q) => {
            if q < k {
                assert(s[k] == '/');
            } else if q > k {
                assert(s[q] == '/');
            }
        },
        None => {
            assert(s[k] == '/');
        },
    }
}

proof fn lemma_no_slash(s: Seq<char>)
    requires
        forall|j: int| 0 <= j < s.len() ==> s[j] != '/',
    ensures
        last_slash(s) is None,
{
    lemma_last_slash(s);
    if last_slash(s) is Some {
        let q = last_slash(s)->0;
        assert(s[q] == '/');
    }
}

/// The last component is `word` (a word without `/`) exactly when the
/// path is `word` or ends in `/word`.
proof fn lemma_last_component_is(d: Seq<char>, word: Seq<char>)
    requires
        forall|j: int| 0 <= j < word.len() ==> word[j] != '/',
        word.len() > 0,
    ensures
        (last_component(d) == word) == (d == word || (d.len() > word.len() && d[d.len() - word.len()
            - 1] == '/' && d.subrange(d.len() - word.len(), d.len() as int) == word)),
        d.len() > word.len() && d[d.len() - word.len() - 1] == '/' && d.subrange(
            d.len() - word.len(),
            d.len() as int,
        ) == word ==> parent(d) == Some(d.subrange(0, d.len() - word.len() - 1)),
        d == word ==> parent(d) is None,
{
    lemma_last_slash(d);
    let n = d.len();
    let w = word.len();
    if n > w && d[n - w - 1] == '/' && d.subrange(n - w, n as int) == word {
        assert forall|j: int| n - w - 1 < j < n implies d[j] != '/' by {
            assert(d[j] == d.subrange(n - w, n as int)[j - (n - w)]);
        }
        lemma_last_slash_is(d, n - w - 1);
    }
    if d == word {
        lemma_no_slash(d);
    }
    if last_component(d) == word {
        match last_slash(d) {
            Some(k) => {
                assert(d.subrange(k + 1, n as int) == word);
                assert(k == n - w - 1);
                assert(d.subrange(n - w, n as int) =~= word);
            },
            None => {},
        }
    }
}

/// The release gate works by whole path components, never substrings:
/// it holds exactly when, split at `/`, the path has at least three
/// components, the last is not empty, and the two before it are
/// `target` and `release`.
pub proof fn law_release_exe_by_components(exe: Seq<char>)
    ensures
        release_exe_spec(exe) == release_components(exe),
{
    lemma_last_slash(exe);
    assert(release_word() =~= seq!['r', 'e', 'l', 'e', 'a', 's', 'e']);
    assert forall|j: int| 0 <= j < release_word().len() implies release_word()[j] != '/' by {}
    assert forall|j: int| 0 <= j < target_word().len() implies target_word()[j] != '/' by {}
    match last_slash(exe) {
        None => {},
        Some(k) => {
            let d = exe.subrange(0, k);
            assert(parent(exe) == Some(d));
            assert(last_component(exe).len() == exe.len() - k - 1);
            lemma_last_component_is(d, release_word());
            let n = d.len();
            if n > 7 && d[n - 8] == '/' && d.subrange(n - 7, n as int) == release_word() {
                let d2 = d.subrange(0, n - 8);
                lemma_last_component_is(d2, target_word());
                let m = d2.len();
                assert(release_dir() =~= target_word() + seq!['/'] + release_word());
                if d == release_dir() {
                    assert(d2 =~= target_word());
                } else if n > 14 && d.subrange(n - 15, n as int) == seq!['/'] + release_dir() {
                    let t = d.subrange(n - 15, n as int);
                    assert forall|j: int| 0 <= j < 6 implies d2.subrange(m - 6, m as int)[j]
                        == target_word()[j] by {
                        assert(d2.subrange(m - 6, m as int)[j] == d[n - 14 + j]);
                        assert(t[1 + j] == d[n - 14 + j]);
                        assert((seq!['/'] + release_dir())[1 + j] == release_dir()[j]);
                    }
                    assert(d2.subrange(m - 6, m as int) =~= target_word());
                    assert(d2[m - 7] == d.subrange(n - 15, n as int)[0]);
                }
                if d2 == target_word() {
                    assert(d =~= release_dir());
                } else if m > 6 && d2[m - 7] == '/' && d2.subrange(m - 6, m as int) == target_word() {
                    assert(d.subrange(n - 15, n as int) =~= seq!['/'] + release_dir());
                }
            } else {
                if d == release_dir() {
                    assert(d[n - 8] == '/');
                    assert(d.subrange(n - 7, n as int) =~= release_word());
                }
                if n > 14 && d.subrange(n - 15, n as int) == seq!['/'] + release_dir() {
                    let t = d.subrange(n - 15, n as int);
                    assert(d[n - 8] == t[7]);
                    assert forall|j: int| 0 <= j < 7 implies d.subrange(n - 7, n as int)[j]
                        == release_word()[j] by {
                        assert(t[8 + j] == d[n - 7 + j]);
                        assert((seq!['/'] + release_dir())[8 + j] == release_dir()[7 + j]);
                    }
                    assert(d.subrange(n - 7, n as int) =~= release_word());
                }
            }
        },
    }
}

/// Component-exact gate: prod runs the release binary
/// (`…/target/release/<exe>`), never a look-alike directory.
pub fn release_exe(exe: &str) -> (ok: bool)
    ensures
        ok == release_exe_spec(exe@),
{
    let v = chars_of(exe);
    let n = v.len();
    let mut k = n;
    while k > 0 && v[k - 1] != '/'
        invariant
            k <= n,
            n == v@.len(),
            forall|j: int| k <= j < n ==> v@[j] != '/',
        decreases k,
    {
        k = k - 1;
    }
    proof {
        lemma_last_slash(v@);
    }
    if k == 0 {
        proof {
            if last_slash(v@) is Some {
                let q = last_slash(v@)->0;
                assert(v@[q] == '/');
            }
        }
        return false;
    }
    let slash = k - 1;
    proof {
        match last_slash(v@) {
            Some(q) => {
                if q < slash {
                    assert(v@[slash as int] == '/');
                }
                if q > slash {
                    assert(v@[q] != '/');
                }
            },
            None => {
                assert(v@[slash as int] == '/');
            },
        }
    }
    if slash + 1 >= n {
        return false;
    }
    let rel: Vec<char> = vec!['t', 'a', 'r', 'g', 'e', 't', '/', 'r', 'e', 'l', 'e', 'a', 's', 'e'];
    let want: Vec<char> = vec!['/', 't', 'a', 'r', 'g', 'e', 't', '/', 'r', 'e', 'l', 'e', 'a', 's', 'e'];
    assert(rel@ =~= release_dir());
    assert(want@ =~= seq!['/'] + release_dir());
    let ghost dir = v@.subrange(0, slash as int);
    if slash == 14 {
        let ok = at_pat(&v, 0, &rel);
        assert(v@.subrange(0, 14) =~= dir);
        return ok;
    }
    if slash > 14 {
        let ok = at_pat(&v, slash - 15, &want);
        assert(dir.subrange(dir.len() - 15, dir.len() as int) =~= v@.subrange(slash - 15, slash as int));
        return ok;
    }
    assert(dir.len() != release_dir().len());
    false
}

/// XML escape of one character.
pub open spec fn escape_char(c: char) -> Seq<char> {
    if c == '&' {
        seq!['&', 'a', 'm', 'p', ';']
    } else if c == '<' {
        seq!['&', 'l', 't', ';']
    } else if c == '>' {
        seq!['&', 'g', 't', ';']
    } else {
        seq![c]
    }
}

/// XML escape of a text (`&`, `<`, `>`).
pub open spec fn escape_spec(s: Seq<char>) -> Seq<char>
    decreases s.len(),
{
    if s.len() == 0 {
        Seq::empty()
    } else {
        escape_spec(s.drop_last()) + escape_char(s.last())
    }
}

/// `&amp;`.
pub open spec fn amp_entity() -> Seq<char> {
    seq!['&', 'a', 'm', 'p', ';']
}

/// `&lt;`.
pub open spec fn lt_entity() -> Seq<char> {
    seq!['&', 'l', 't', ';']
}

/// `&gt;`.
pub open spec fn gt_entity() -> Seq<char> {
    seq!['&', 'g', 't', ';']
}

/// One left-to-right pass that maps `&amp;`, `&lt;` and `&gt;` back to
/// `&`, `<` and `>` and keeps everything else.
pub open spec fn unescape_spec(e: Seq<char>) -> Seq<char>
    decreases e.len(),
{
    if e.len() == 0 {
        Seq::empty()
    } else if e.len() >= 5 && e.subrange(0, 5) == amp_entity() {
        seq!['&'] + unescape_spec(e.subrange(5, e.len() as int))
    } else if e.len() >= 4 && e.subrange(0, 4) == lt_entity() {
        seq!['<'] + unescape_spec(e.subrange(4, e.len() as int))
    } else if e.len() >= 4 && e.subrange(0, 4) == gt_entity() {
        seq!['>'] + unescape_spec(e.subrange(4, e.len() as int))
    } else {
        seq![e[0]] + unescape_spec(e.drop_first())
    }
}

/// An escape entity starts at `i` of `e`.
pub open spec fn entity_at(e: Seq<char>, i: int) -> bool {
    (i + 5 <= e.len() && e.subrange(i, i + 5) == amp_entity()) || (i + 4 <= e.len() && e.subrange(
        i,
        i + 4,
    ) == lt_entity()) || (i + 4 <= e.len() && e.subrange(i, i + 4) == gt_entity())
}

proof fn lemma_escape_append(a: Seq<char>, b: Seq<char>)
    ensures
        escape_spec(a + b) == escape_spec(a) + escape_spec(b),
    decreases b.len(),
{
    if b.len() == 0 {
        assert(a + b =~= a);
        assert(escape_spec(a) + escape_spec(b) =~= escape_spec(a));
    } else {
        lemma_escape_append(a, b.drop_last());
        assert((a + b).drop_last() =~= a + b.drop_last());
        assert((a + b).last() == b.last());
        assert(escape_spec(a + b) =~= escape_spec(a) + escape_spec(b));
    }
}

proof fn lemma_escape_cons(s: Seq<char>)
    requires
        s.len() > 0,
    ensures
        escape_spec(s) == escape_char(s[0]) + escape_spec(s.drop_first()),
{
    assert(s =~= seq![s[0]] + s.drop_first());
    lemma_escape_append(seq![s[0]], s.drop_first());
    let one = seq![s[0]];
    assert(one.last() == s[0]);
    assert(one.drop_last() =~= Seq::<char>::empty());
    assert(escape_spec(one.drop_last()) =~= Seq::<char>::empty());
    assert(escape_spec(one) =~= escape_char(s[0]));
}

/// XML escaping is undone by one decoding pass, and the escaped text
/// holds no `<` or `>`: a plist value can never close or open a tag.
pub proof fn law_xml_escape_round_trip(s: Seq<char>)
    ensures
        unescape_spec(escape_spec(s)) == s,
        forall|i: int| 0 <= i < escape_spec(s).len() ==> #[trigger] escape_spec(s)[i] != '<'
            && escape_spec(s)[i] != '>',
    decreases s.len(),
{
    if s.len() == 0 {
        assert(escape_spec(s) =~= Seq::<char>::empty());
    } else {
        let c = s[0];
        let rest = s.drop_first();
        law_xml_escape_round_trip(rest);
        lemma_escape_cons(s);
        let er = escape_spec(rest);
        let x = escape_char(c);
        let e = x + er;
        if c == '&' {
            assert(e.subrange(0, 5) =~= amp_entity());
            assert(e.subrange(5, e.len() as int) =~= er);
        } else if c == '<' {
            assert(!(e.len() >= 5 && e.subrange(0, 5) == amp_entity())) by {
                if e.len() >= 5 {
                    assert(e.subrange(0, 5)[1] == 'l');
                }
            }
            assert(e.subrange(0, 4) =~= lt_entity());
            assert(e.subrange(4, e.len() as int) =~= er);
        } else if c == '>' {
            assert(!(e.len() >= 5 && e.subrange(0, 5) == amp_entity())) by {
                if e.len() >= 5 {
                    assert(e.subrange(0, 5)[1] == 'g');
                }
            }
            assert(!(e.len() >= 4 && e.subrange(0, 4) == lt_entity())) by {
                assert(e.subrange(0, 4)[1] == 'g');
            }
            assert(e.subrange(0, 4) =~= gt_entity());
            assert(e.subrange(4, e.len() as int) =~= er);
        } else {
            assert(x =~= seq![c]);
            assert(e[0] == c);
            assert(!(e.len() >= 5 && e.subrange(0, 5) == amp_entity())) by {
                if e.len() >= 5 {
                    assert(e.subrange(0, 5)[0] == c);
                }
            }
            assert(!(e.len() >= 4 && e.subrange(0, 4) == lt_entity())) by {
                if e.len() >= 4 {
                    assert(e.subrange(0, 4)[0] == c);
                }
            }
            assert(!(e.len() >= 4 && e.subrange(0, 4) == gt_entity())) by {
                if e.len() >= 4 {
                    assert(e.subrange(0, 4)[0] == c);
                }
            }
            assert(e.drop_first() =~= er);
        }
        assert(unescape_spec(e) =~= s) by {
            assert(s =~= seq![c] + rest);
        }
        assert forall|i: int| 0 <= i < e.len() implies #[trigger] e[i] != '<' && e[i] != '>' by {
            if i >= x.len() {
                assert(e[i] == er[i - x.len()]);
            }
        }

    }
}

/// Every `&` of an escaped text starts an entity (`&amp;`, `&lt;` or
/// `&gt;`): no raw ampersand reaches the plist.
pub proof fn law_xml_escape_ampersands(s: Seq<char>)
    ensures
        forall|i: int|
            0 <= i < escape_spec(s).len() && #[trigger] escape_spec(s)[i] == '&' ==> entity_at(
                escape_spec(s),
                i,
            ),
    decreases s.len(),
{
    if s.len() == 0 {
        assert(escape_spec(s) =~= Seq::<char>::empty());
    } else {
        let c = s[0];
        let rest = s.drop_first();
        law_xml_escape_ampersands(rest);
        lemma_escape_cons(s);
        let er = escape_spec(rest);
        let x = escape_char(c);
        let e = x + er;
        assert forall|i: int| 0 <= i < e.len() && #[trigger] e[i] == '&' implies entity_at(e, i) by {
            if i >= x.len() {
                let j = i - x.len();
                assert(e[i] == er[j]);
                assert(er[j] == '&');
                if j + 5 <= er.len() && er.subrange(j, j + 5) == amp_entity() {
                    assert(e.subrange(i, i + 5) =~= er.subrange(j, j + 5));
                } else if j + 4 <= er.len() && er.subrange(j, j + 4) == lt_entity() {
                    assert(e.subrange(i, i + 4) =~= er.subrange(j, j + 4));
                } else {
                    assert(e.subrange(i, i + 4) =~= er.subrange(j, j + 4));
                }
            } else {
                assert(c == '&' || c == '<' || c == '>') by {
                    if !(c == '&' || c == '<' || c == '>') {
                        assert(x =~= seq![c]);
                        assert(e[0] == c);
                    }
                }
                if c == '&' {
                    assert(e.subrange(0, 5) =~= amp_entity());
                    if i > 0 {
                        assert(e[i] == x[i]);
                    }
                } else if c == '<' {
                    assert(e.subrange(0, 4) =~= lt_entity());
                    if i > 0 {
                        assert(e[i] == x[i]);
                    }
                } else {
                    assert(e.subrange(0, 4) =~= gt_entity());
                    if i > 0 {
                        assert(e[i] == x[i]);
                    }
                }
            }
        }
    }
}

/// Minimal XML escape for plist string values.
pub fn xml_escape(s: &str) -> (out: String)
    ensures
        out@ == escape_spec(s@),
{
    let v = chars_of(s);
    let mut out = String::new();
    let mut i: usize = 0;
    while i < v.len()
        invariant
            i <= v@.len(),
            out@ == escape_spec(v@.subrange(0, i as int)),
        decreases v@.len() - i,
    {
        let c = v[i];
        if c == '&' {
            let e: Vec<char> = vec!['&', 'a', 'm', 'p', ';'];
            append_chars(&mut out, &e);
        } else if c == '<' {
            let e: Vec<char> = vec!['&', 'l', 't', ';'];
            append_chars(&mut out, &e);
        } else if c == '>' {
            let e: Vec<char> = vec!['&', 'g', 't', ';'];
            append_chars(&mut out, &e);
        } else {
            push_char(&mut out, c);
        }
        assert(v@.subrange(0, i + 1).drop_last() =~= v@.subrange(0, i as int));
        i = i + 1;
        assert(out@ =~= escape_spec(v@.subrange(0, i as int)));
    }
    assert(v@.subrange(0, i as int) =~= v@);
    out
}

/// Plist text up to the program path.
pub const PLIST_HEAD: &'static str = "<?xml version=\"1.0\" encoding=\"UTF-8\"?>\n<!DOCTYPE plist PUBLIC \"-//Apple//DTD PLIST 1.0//EN\" \"http://www.apple.com/DTDs/PropertyList-1.0.dtd\">\n<plist version=\"1.0\">\n<dict>\n\t<key>Label</key>\n\t<string>dev.herdr.telegram</string>\n\t<key>ProgramArguments</key>\n\t<array>\n\t\t<string>";

/// Plist text between the program path and the working directory.
pub const PLIST_MID: &'static str = "</string>\n\t</array>\n\t<key>WorkingDirectory</key>\n\t<string>";

/// Plist text between the working directory and the stdout log dir.
pub const PLIST_KEEP: &'static str = "</string>\n\t<!-- ThrottleInterval 30: the bot holds a single-instance TCP guard, so a fast crash-loop would spin hot against a live/stale holder; throttling keeps restarts spaced out. -->\n\t<key>ThrottleInterval</key>\n\t<integer>30</integer>\n\t<key>RunAtLoad</key>\n\t<true/>\n\t<key>KeepAlive</key>\n\t<dict>\n\t\t<!-- SuccessfulExit must nest under KeepAlive: a sibling\n\t\t     key is ignored, so restart-only-on-failure never\n\t\t     applied and a clean exit still relaunched forever. -->\n\t\t<key>SuccessfulExit</key>\n\t\t<false/>\n\t</dict>\n\t<key>StandardOutPath</key>\n\t<string>";

/// Plist text between the stdout and the stderr log dir.
pub const PLIST_ERR: &'static str = "/bot.log</string>\n\t<key>StandardErrorPath</key>\n\t<string>";

/// Plist tail.
pub const PLIST_TAIL: &'static str = "/bot.log</string>\n</dict>\n</plist>\n";

/// The service plist for binary `exe` run in `dir` (both escaped).
pub open spec fn plist_spec(exe: Seq<char>, dir: Seq<char>) -> Seq<char> {
    let e = escape_spec(exe);
    let d = escape_spec(dir);
    PLIST_HEAD@ + e + PLIST_MID@ + d + PLIST_KEEP@ + d + PLIST_ERR@ + d + PLIST_TAIL@
}

/// Both logs of the service go to the working directory's `bot.log`:
/// the plist holds the StandardOutPath entry and the StandardErrorPath
/// entry, each as the escaped working directory followed by `/bot.log`,
/// and the WorkingDirectory entry as the escaped directory itself.
pub proof fn law_plist_logs_in_working_dir(exe: Seq<char>, dir: Seq<char>)
    ensures
        exists|i: int|
            at(
                plist_spec(exe, dir),
                i,
                "<key>StandardOutPath</key>\n\t<string>"@ + escape_spec(dir) + "/bot.log</string>"@,
            ),
        exists|i: int|
            at(
                plist_spec(exe, dir),
                i,
                "<key>StandardErrorPath</key>\n\t<string>"@ + escape_spec(dir) + "/bot.log</string>"@,
            ),
        exists|i: int|
            at(
                plist_spec(exe, dir),
                i,
                "<key>WorkingDirectory</key>\n\t<string>"@ + escape_spec(dir) + "</string>"@,
            ),
{
    reveal_strlit("<key>StandardOutPath</key>\n\t<string>");
    reveal_strlit("<key>StandardErrorPath</key>\n\t<string>");
    reveal_strlit("<key>WorkingDirectory</key>\n\t<string>");
    reveal_strlit("/bot.log</string>");
    reveal_strlit("</string>");
    reveal_strlit("</string>\n\t</array>\n\t<key>WorkingDirectory</key>\n\t<string>");
    reveal_strlit("</string>\n\t<!-- ThrottleInterval 30: the bot holds a single-instance TCP guard, so a fast crash-loop would spin hot against a live/stale holder; throttling keeps restarts spaced out. -->\n\t<key>ThrottleInterval</key>\n\t<integer>30</integer>\n\t<key>RunAtLoad</key>\n\t<true/>\n\t<key>KeepAlive</key>\n\t<dict>\n\t\t<!-- SuccessfulExit must nest under KeepAlive: a sibling\n\t\t     key is ignored, so restart-only-on-failure never\n\t\t     applied and a clean exit still relaunched forever. -->\n\t\t<key>SuccessfulExit</key>\n\t\t<false/>\n\t</dict>\n\t<key>StandardOutPath</key>\n\t<string>");
    reveal_strlit("/bot.log</string>\n\t<key>StandardErrorPath</key>\n\t<string>");
    reveal_strlit("/bot.log</string>\n</dict>\n</plist>\n");
    let e = escape_spec(exe);
    let d = escape_spec(dir);
    let p = plist_spec(exe, dir);
    let out_key = "<key>StandardOutPath</key>\n\t<string>"@;
    let err_key = "<key>StandardErrorPath</key>\n\t<string>"@;
    let wd_key = "<key>WorkingDirectory</key>\n\t<string>"@;
    let log = "/bot.log</string>"@;
    let close = "</string>"@;
    // WorkingDirectory: the tail of PLIST_MID, the directory, the head of PLIST_KEEP.
    let mid_pre = PLIST_MID@.subrange(0, PLIST_MID@.len() - wd_key.len());
    assert(PLIST_MID@ =~= mid_pre + wd_key);
    let keep_post = PLIST_KEEP@.subrange(close.len() as int, PLIST_KEEP@.len() as int);
    assert(PLIST_KEEP@ =~= close + keep_post);
    let i1: int = (PLIST_HEAD@.len() + e.len() + mid_pre.len()) as int;
    assert(p =~= (PLIST_HEAD@ + e + mid_pre) + (wd_key + d + close) + (keep_post + d + PLIST_ERR@ + d + PLIST_TAIL@));
    assert(p.subrange(i1, i1 + (wd_key + d + close).len() as int) =~= wd_key + d + close);
    assert(at(p, i1, wd_key + d + close));
    // StandardOutPath: the tail of PLIST_KEEP, the directory, the head of PLIST_ERR.
    let keep_pre = PLIST_KEEP@.subrange(0, PLIST_KEEP@.len() - out_key.len());
    assert(PLIST_KEEP@ =~= keep_pre + out_key);
    let err_post = PLIST_ERR@.subrange(log.len() as int, PLIST_ERR@.len() as int);
    assert(PLIST_ERR@ =~= log + err_post);
    let i2: int = (PLIST_HEAD@.len() + e.len() + PLIST_MID@.len() + d.len() + keep_pre.len()) as int;
    assert(p =~= (PLIST_HEAD@ + e + PLIST_MID@ + d + keep_pre) + (out_key + d + log) + (err_post + d + PLIST_TAIL@));
    assert(p.subrange(i2, i2 + (out_key + d + log).len() as int) =~= out_key + d + log);
    assert(at(p, i2, out_key + d + log));
    // StandardErrorPath: the tail of PLIST_ERR, the directory, the head of PLIST_TAIL.
    reveal_strlit("\n\t");
    assert(err_post =~= "\n\t"@ + err_key);
    let err_pre = log + "\n\t"@;
    assert(PLIST_ERR@ =~= err_pre + err_key);
    let tail_post = PLIST_TAIL@.subrange(log.len() as int, PLIST_TAIL@.len() as int);
    assert(PLIST_TAIL@ =~= log + tail_post);
    let i3: int = (PLIST_HEAD@.len() + e.len() + PLIST_MID@.len() + d.len() + PLIST_KEEP@.len() + d.len() + err_pre.len()) as int;
    assert(p =~= (PLIST_HEAD@ + e + PLIST_MID@ + d + PLIST_KEEP@ + d + err_pre) + (err_key + d + log) + tail_post);
    assert(p.subrange(i3, i3 + (err_key + d + log).len() as int) =~= err_key + d + log);
    assert(at(p, i3, err_key + d + log));
}

/// Render the launchd plist: label, program, working dir, restart
/// throttling, restart-only-on-failure nested under KeepAlive, and the
/// log paths.
pub fn render_plist(exe: &str, dir: &str) -> (p: String)
    ensures
        p@ == plist_spec(exe@, dir@),
{
    let e = xml_escape(exe);
    let d = xml_escape(dir);
    let mut p = String::new();
    p.append(PLIST_HEAD);
    p.append(e.as_str());
    p.append(PLIST_MID);
    p.append(d.as_str());
    p.append(PLIST_KEEP);
    p.append(d.as_str());
    p.append(PLIST_ERR);
    p.append(d.as_str());
    p.append(PLIST_TAIL);
    p
}

/// A user id as `id -u` prints it: the trimmed output, when it is a
/// non-empty run of ASCII digits.
pub open spec fn uid_spec(out: Seq<char>) -> Option<Seq<char>> {
    let t = crate::text::trimmed(out);
    if t.len() > 0 && forall|i: int| 0 <= i < t.len() ==> crate::state::history::is_digit(#[trigger] t[i]) {
        Some(t)
    } else {
        None
    }
}

/// Read the user id from `id -u` output (none for an empty or non-numeric
/// answer: the launchd domain must never be guessed).
pub fn uid_from(out: &str) -> (r: Option<String>)
    ensures
        match r {
            Some(s) => uid_spec(out@) == Some(s@),
            None => uid_spec(out@) is None,
        },
{
    let t = crate::text::trim_str(out);
    let n = t.as_str().unicode_len();
    if n == 0 {
        return None;
    }
    let mut i: usize = 0;
    while i < n
        invariant
            i <= n,
            n == t@.len(),
            t@ == crate::text::trimmed(out@),
            forall|j: int| 0 <= j < i ==> crate::state::history::is_digit(#[trigger] t@[j]),
        decreases n - i,
    {
        let c = t.as_str().get_char(i);
        if !('0' <= c && c <= '9') {
            assert(!crate::state::history::is_digit(t@[i as int]));
            return None;
        }
        i = i + 1;
    }
    Some(t)
}

/// The launchd GUI domain of a user.
pub fn domain_target(uid: &str) -> (d: String)
    ensures
        d@ == "gui/"@ + uid@,
{
    let mut d = String::new();
    d.append("gui/");
    d.append(uid);
    d
}

/// The bot's service in a user's launchd GUI domain.
pub fn service_target(uid: &str) -> (d: String)
    ensures
        d@ == "gui/"@ + uid@ + "/"@ + LABEL@,
{
    let mut d = domain_target(uid);
    d.append("/");
    d.append(LABEL);
    d
}

} // verus!
