//! Where the bot keeps its state files: one directory, chosen once,
//! shared by the daemon and the console.
use crate::state::history::{parse_u64, parse_u64_str};
use crate::text::{join_path, join_spec, trim_str, trimmed};
use vstd::prelude::*;
use vstd::string::*;

verus! {

/// Focus file name.
pub const FOCUS_FILE: &'static str = "focus.state";

/// Poll offset file name.
pub const OFFSET_FILE: &'static str = "offset.state";

/// State directory: the configured `HERDR_STATE_DIR` when there is one,
/// else the launch directory `.`.
pub fn state_dir(configured: Option<&str>) -> (dir: String)
    ensures
        dir@ == (match configured {
            Some(v) => v@,
            None => seq!['.'],
        }),
{
    match configured {
        Some(v) => v.to_string(),
        None => {
            let d = String::from_str(".");
            proof {
                reveal_strlit(".");
            }
            d
        },
    }
}

/// The focus file inside the state directory.
pub fn focus_file(dir: &str) -> (p: String)
    ensures
        p@ == join_spec(dir@, FOCUS_FILE@),
{
    join_path(dir, FOCUS_FILE)
}

/// The poll offset file inside the state directory.
pub fn offset_file(dir: &str) -> (p: String)
    ensures
        p@ == join_spec(dir@, OFFSET_FILE@),
{
    join_path(dir, OFFSET_FILE)
}

/// Transient-remove flag file name.
pub const TRANSIENT_FILE: &'static str = "transient.state";

/// The transient-remove file inside the state directory.
pub fn transient_file(dir: &str) -> (p: String)
    ensures
        p@ == join_spec(dir@, TRANSIENT_FILE@),
{
    join_path(dir, TRANSIENT_FILE)
}

/// The flag file enables auto-remove only when it reads `on` (any ASCII
/// case, surrounding whitespace ignored); empty, torn or garbage content
/// keeps transients.
pub open spec fn transient_on_spec(text: Seq<char>) -> bool {
    let t = trimmed(text);
    t.len() == 2 && (t[0] == 'o' || t[0] == 'O') && (t[1] == 'n' || t[1] == 'N')
}

/// Read the transient-remove flag file's content.
pub fn transient_on(text: &str) -> (on: bool)
    ensures
        on == transient_on_spec(text@),
{
    let t = trim_str(text);
    let v = t.as_str();
    v.unicode_len() == 2 && (v.get_char(0) == 'o' || v.get_char(0) == 'O') && (v.get_char(1) == 'n'
        || v.get_char(1) == 'N')
}

/// Content written for the transient-remove flag.
pub fn transient_text(on: bool) -> (t: &'static str)
    ensures
        t@ == (if on {
            "on"@
        } else {
            "off"@
        }),
{
    if on {
        "on"
    } else {
        "off"
    }
}

/// The saved poll offset, read from its file's content: blank is 0, a
/// number is itself, anything else is corrupt (the file is backed up and
/// the offset restarts from 0).
#[derive(Clone, Copy, Debug, PartialEq, Eq, Structural)]
pub struct OffsetRead {
    pub offset: u64,
    pub corrupt: bool,
}

/// Read the offset file's content.
pub fn offset_from_text(text: &str) -> (r: OffsetRead)
    ensures
        r == (if trimmed(text@).len() == 0 {
            OffsetRead { offset: 0, corrupt: false }
        } else {
            match parse_u64(trimmed(text@)) {
                Some(n) => OffsetRead { offset: n as u64, corrupt: false },
                None => OffsetRead { offset: 0, corrupt: true },
            }
        }),
{
    let t = trim_str(text);
    if t.as_str().unicode_len() == 0 {
        return OffsetRead { offset: 0, corrupt: false };
    }
    match parse_u64_str(t.as_str()) {
        Some(n) => OffsetRead { offset: n, corrupt: false },
        None => OffsetRead { offset: 0, corrupt: true },
    }
}

} // verus!
