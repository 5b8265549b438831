//! opencode's session store answers a query for the assistant's reply
//! rows as a JSON array; the reply is the rows' non-blank texts, one per
//! line, in row order.
use crate::text::{is_blank, push_char, str_is_blank};
use vstd::prelude::*;
use vstd::string::*;

verus! {

/// The `field` string of each row of the JSON array in `bytes` (none for
/// a row without such a string); none at all when `bytes` is not a JSON
/// array.
pub uninterp spec fn json_rows_field(bytes: Seq<u8>, field: Seq<char>) -> Option<
    Seq<Option<Seq<char>>>,
>;

/// An optional text by its characters.
pub open spec fn opt_view(o: Option<String>) -> Option<Seq<char>> {
    match o {
        Some(s) => Some(s@),
        None => None,
    }
}

/// `serde_json::from_slice` into a `Vec<Value>`, then per row
/// `Value::get(field)` and `Value::as_str`.
#[verifier::external_body]
fn rows_field(bytes: &[u8], field: &str) -> (r: Option<Vec<Option<String>>>)
    ensures
        match r {
            Some(v) => json_rows_field(bytes@, field@) == Some(v@.map_values(|o: Option<String>| opt_view(o))),
            None => json_rows_field(bytes@, field@) is None,
        },
{
    match serde_json::from_slice::<Vec<serde_json::Value>>(bytes) {
        Ok(rows) => Some(
            rows.iter().map(|r| r.get(field).and_then(|v| v.as_str()).map(|t| t.to_string())).collect(),
        ),
        Err(_) => None,
    }
}

/// The rows' texts that are present and not blank, in order.
pub open spec fn reply_parts(rows: Seq<Option<Seq<char>>>) -> Seq<Seq<char>>
    decreases rows.len(),
{
    if rows.len() == 0 {
        Seq::empty()
    } else {
        let rest = reply_parts(rows.drop_last());
        match rows.last() {
            Some(t) => if is_blank(t) {
                rest
            } else {
                rest.push(t)
            },
            None => rest,
        }
    }
}

/// Parts joined with newlines.
pub open spec fn join_lines(parts: Seq<Seq<char>>) -> Seq<char>
    decreases parts.len(),
{
    if parts.len() == 0 {
        Seq::empty()
    } else if parts.len() == 1 {
        parts[0]
    } else {
        join_lines(parts.drop_last()) + seq!['\n'] + parts.last()
    }
}

/// The reply of a row set: none when no row has a non-blank text.
pub open spec fn reply_of(rows: Seq<Option<Seq<char>>>) -> Option<Seq<char>> {
    if reply_parts(rows).len() == 0 {
        None
    } else {
        Some(join_lines(reply_parts(rows)))
    }
}

/// Join the non-blank row texts, one per line.
pub fn join_reply_rows(rows: &Vec<Option<String>>) -> (r: Option<String>)
    ensures
        opt_view(r) == reply_of(rows@.map_values(|o: Option<String>| opt_view(o))),
{
    let ghost rs = rows@.map_values(|o: Option<String>| opt_view(o));
    let mut out = String::new();
    let mut any = false;
    let mut i: usize = 0;
    while i < rows.len()
        invariant
            i <= rows@.len(),
            rs == rows@.map_values(|o: Option<String>| opt_view(o)),
            any == (reply_parts(rs.subrange(0, i as int)).len() > 0),
            any ==> out@ == join_lines(reply_parts(rs.subrange(0, i as int))),
            !any ==> out@ == Seq::<char>::empty(),
        decreases rows@.len() - i,
    {
        assert(rs.subrange(0, i as int + 1).drop_last() =~= rs.subrange(0, i as int));
        assert(rs.subrange(0, i as int + 1).last() == opt_view(rows@[i as int]));
        match &rows[i] {
            Some(t) => {
                if !str_is_blank(t.as_str()) {
                    let ghost p = reply_parts(rs.subrange(0, i as int));
                    assert(p.push(t@).drop_last() =~= p);
                    if any {
                        push_char(&mut out, '\n');
                    }
                    out.append(t.as_str());
                    any = true;
                }
            },
            None => {},
        }
        i = i + 1;
    }
    assert(rs.subrange(0, rows@.len() as int) =~= rs);
    if any {
        Some(out)
    } else {
        None
    }
}

/// The reply in the store's answer `bytes` (a JSON array of rows with a
/// `txt` field); none when the answer does not parse or holds no text.
pub fn final_reply_from_rows(bytes: &[u8]) -> (r: Option<String>)
    ensures
        opt_view(r) == (match json_rows_field(bytes@, "txt"@) {
            Some(rows) => reply_of(rows),
            None => None,
        }),
{
    match rows_field(bytes, "txt") {
        Some(rows) => join_reply_rows(&rows),
        None => None,
    }
}

} // verus!
