//! Pinned live-status card text: the status line plus the latest answer
//! excerpt.
use crate::text::{append_range, chars_of, contains_seq, str_contains, str_eq, trim_str, trimmed};
use vstd::string::*;
use vstd::prelude::*;

verus! {

/// Longest excerpt shown in a pin, in characters.
pub const PIN_EXCERPT_CHARS: usize = 800;

/// Status badge.
pub open spec fn emoji_spec(status: Seq<char>) -> Seq<char> {
    if status == "idle"@ {
        "🟢"@
    } else if status == "working"@ {
        "🔄"@
    } else if status == "done"@ {
        "✅"@
    } else if status == "blocked"@ {
        "⛔"@
    } else {
        "❔"@
    }
}

/// Badge for a pane status.
pub fn emoji(status: &str) -> (e: &'static str)
    ensures
        e@ == emoji_spec(status@),
{
    if str_eq(status, "idle") {
        "🟢"
    } else if str_eq(status, "working") {
        "🔄"
    } else if str_eq(status, "done") {
        "✅"
    } else if str_eq(status, "blocked") {
        "⛔"
    } else {
        "❔"
    }
}

/// Pin body: `<badge> <status>`, followed by a blank line and the
/// trimmed excerpt (its first [`PIN_EXCERPT_CHARS`] characters) when that
/// is not blank.
pub open spec fn pin_spec(status: Seq<char>, excerpt: Seq<char>) -> Seq<char> {
    let body = if excerpt.len() > PIN_EXCERPT_CHARS {
        excerpt.take(PIN_EXCERPT_CHARS as int)
    } else {
        excerpt
    };
    let head = emoji_spec(status) + " "@ + status;
    if trimmed(body).len() == 0 {
        head
    } else {
        head + "\n\n"@ + trimmed(body)
    }
}

/// The pin keeps the whole answer excerpt: when the first
/// [`PIN_EXCERPT_CHARS`] characters of the excerpt are not all
/// whitespace, the pin text ends with exactly their trimmed text (every
/// line of it) after a blank line; otherwise the pin is the badge and
/// the status alone. Either way it starts with the badge and the status.
pub proof fn law_pin_keeps_excerpt(status: Seq<char>, excerpt: Seq<char>)
    ensures
        ({
            let n = if excerpt.len() > PIN_EXCERPT_CHARS {
                PIN_EXCERPT_CHARS as int
            } else {
                excerpt.len() as int
            };
            let t = trimmed(excerpt.subrange(0, n));
            let head = emoji_spec(status) + " "@ + status;
            let p = pin_spec(status, excerpt);
            &&& p.len() >= head.len()
            &&& p.subrange(0, head.len() as int) == head
            &&& t.len() > 0 ==> p.len() == head.len() + 2 + t.len() && p.subrange(
                p.len() - t.len(),
                p.len() as int,
            ) == t && p.subrange(head.len() as int, head.len() + 2int) == "\n\n"@
            &&& t.len() == 0 ==> p == head
        }),
{
    let n = if excerpt.len() > PIN_EXCERPT_CHARS {
        PIN_EXCERPT_CHARS as int
    } else {
        excerpt.len() as int
    };
    let body = if excerpt.len() > PIN_EXCERPT_CHARS {
        excerpt.take(PIN_EXCERPT_CHARS as int)
    } else {
        excerpt
    };
    assert(body =~= excerpt.subrange(0, n));
    reveal_strlit("\n\n");
    reveal_strlit(" ");
    let t = trimmed(body);
    let head = emoji_spec(status) + " "@ + status;
    let p = pin_spec(status, excerpt);
    if t.len() > 0 {
        assert(p =~= head + "\n\n"@ + t);
        assert(p.subrange(0, head.len() as int) =~= head);
        assert(p.subrange(p.len() - t.len(), p.len() as int) =~= t);
        assert(p.subrange(head.len() as int, head.len() + 2int) =~= "\n\n"@);
    } else {
        assert(p.subrange(0, head.len() as int) =~= head);
    }
}

/// Pin body for `status` with the latest answer `excerpt`.
pub fn pin_text(status: &str, excerpt: &str) -> (t: String)
    ensures
        t@ == pin_spec(status@, excerpt@),
{
    let v = chars_of(excerpt);
    let cut = if v.len() > PIN_EXCERPT_CHARS {
        PIN_EXCERPT_CHARS
    } else {
        v.len()
    };
    let mut body = String::new();
    append_range(&mut body, &v, 0, cut);
    assert(body@ =~= if excerpt@.len() > PIN_EXCERPT_CHARS {
        excerpt@.take(PIN_EXCERPT_CHARS as int)
    } else {
        excerpt@
    });
    let t = trim_str(body.as_str());
    let mut out = String::new();
    out.append(emoji(status));
    out.append(" ");
    out.append(status);
    if t.as_str().unicode_len() > 0 {
        out.append("\n\n");
        out.append(t.as_str());
    }
    out
}

/// What a pin refresh does: nothing when the pin already shows the text,
/// an edit of the known pin, or a fresh (silently pinned) post.
#[derive(Clone, Copy, Debug, PartialEq, Eq, Structural)]
pub enum PinStep {
    Skip,
    Edit(i64),
    Create,
}

/// Pin refresh step from the last text shown, the new text and the
/// known pin message.
pub fn pin_step(shown: Option<&str>, text: &str, pin: Option<i64>) -> (st: PinStep)
    ensures
        st == (if (match shown {
            Some(t) => t@ == text@,
            None => false,
        }) {
            PinStep::Skip
        } else {
            match pin {
                Some(m) => PinStep::Edit(m),
                None => PinStep::Create,
            }
        }),
{
    let same = match shown {
        Some(t) => str_eq(t, text),
        None => false,
    };
    if same {
        PinStep::Skip
    } else {
        match pin {
            Some(m) => PinStep::Edit(m),
            None => PinStep::Create,
        }
    }
}

/// A pin refresh of `status` with the latest answer `excerpt`: nothing
/// happens without a forum or without the pane's topic; otherwise the
/// pin text is rendered and [`pin_step`] decides against the last text
/// shown (`shown`) and the known pin. Returns the step and the text.
pub fn refresh_pin(
    forum: Option<i64>,
    thread: Option<i64>,
    shown: Option<&str>,
    status: &str,
    excerpt: &str,
    pin: Option<i64>,
) -> (r: (PinStep, String))
    ensures
        r.1@ == pin_spec(status@, excerpt@),
        r.0 == (if forum is None || thread is None || (match shown {
            Some(t) => t@ == pin_spec(status@, excerpt@),
            None => false,
        }) {
            PinStep::Skip
        } else {
            match pin {
                Some(m) => PinStep::Edit(m),
                None => PinStep::Create,
            }
        }),
{
    let text = pin_text(status, excerpt);
    if forum.is_none() || thread.is_none() {
        return (PinStep::Skip, text);
    }
    let st = pin_step(shown, text.as_str(), pin);
    (st, text)
}

/// `str::to_lowercase` of a text (Unicode lowercase mapping).
pub uninterp spec fn lowercase(s: Seq<char>) -> Seq<char>;

/// `str::to_lowercase`.
#[verifier::external_body]
fn to_lower(s: &str) -> (r: String)
    ensures
        r@ == lowercase(s@),
{
    s.to_lowercase()
}

/// How a failed pin edit is handled.
#[derive(Clone, Copy, Debug, PartialEq, Eq, Structural)]
pub enum EditFailure {
    /// Same text already shown: record it as shown.
    NotModified,
    /// The pin was deleted: forget it (the next refresh recreates it).
    NotFound,
    /// Anything else: log and retry on the next refresh.
    Other,
}

/// Classify a failed edit by its lowercased error text.
pub fn edit_failure_of_lower(lower: &str) -> (f: EditFailure)
    ensures
        f == (if contains_seq(lower@, "not modified"@) {
            EditFailure::NotModified
        } else if contains_seq(lower@, "not found"@) {
            EditFailure::NotFound
        } else {
            EditFailure::Other
        }),
{
    if str_contains(lower, "not modified") {
        EditFailure::NotModified
    } else if str_contains(lower, "not found") {
        EditFailure::NotFound
    } else {
        EditFailure::Other
    }
}

/// Classify a failed edit by its error text (case-insensitively).
pub fn edit_failure(msg: &str) -> (f: EditFailure)
    ensures
        f == (if contains_seq(lowercase(msg@), "not modified"@) {
            EditFailure::NotModified
        } else if contains_seq(lowercase(msg@), "not found"@) {
            EditFailure::NotFound
        } else {
            EditFailure::Other
        }),
{
    let lower = to_lower(msg);
    edit_failure_of_lower(lower.as_str())
}

} // verus!
