//! Reports that clients send of themselves.

use vstd::prelude::*;
use vstd::string::*;
use crate::text::{self, chars_of, decimal_text, text_of, to_lossy_text};

verus! {

/// How many characters of a report go into the server's own log.
pub const INLINE_CAP: usize = 16_384;

/// The character that a file name has in place of one that it should not have.
pub open spec fn safe_char(c: char) -> char {
    if text::is_alpha(c) || text::is_digit(c) {
        c
    } else {
        '_'
    }
}

pub open spec fn safe_name(s: Seq<char>) -> Seq<char> {
    Seq::new(s.len(), |i: int| safe_char(s[i]))
}

/// The client that a report comes from.
pub open spec fn client_of(given: Option<Seq<char>>) -> Seq<char> {
    match given {
        Some(c) => c,
        None => "client"@,
    }
}

fn to_safe_char(c: char) -> (r: char)
    ensures
        r == safe_char(c),
{
    if ('a' <= c && c <= 'z') || ('A' <= c && c <= 'Z') || ('0' <= c && c <= '9') {
        c
    } else {
        '_'
    }
}

/// The name of the file that a report is kept in: the time, and the client in
/// letters and digits.
pub fn report_file_name(millis: u64, client: &Option<String>) -> (r: String)
    ensures
        r@ == text::decimal(millis as nat) + "_"@ + safe_name(
            client_of(text::opt_text(*client)),
        ) + ".log"@,
{
    let name: String = match client {
        Some(c) => c.clone(),
        None => "client".to_owned(),
    };
    let v = chars_of(name.as_str());
    let mut safe: Vec<char> = Vec::new();
    let mut i: usize = 0;
    while i < v.len()
        invariant
            i <= v@.len(),
            v@ == name@,
            safe@ == safe_name(name@).take(i as int),
        decreases v@.len() - i,
    {
        safe.push(to_safe_char(v[i]));
        i += 1;
        proof {
            assert(safe_name(name@).take(i as int) =~= safe_name(name@).take(i - 1).push(
                safe_name(name@)[i - 1],
            ));
        }
    }
    proof {
        assert(safe_name(name@).take(i as int) =~= safe_name(name@));
    }
    let mut out = decimal_text(millis);
    out.append("_");
    out.append(text_of(safe.as_slice()).as_str());
    out.append(".log");
    out
}

/// What of a report goes into the server's own log.
pub struct Snippet {
    pub text: String,
    pub truncated: bool,
}

/// The start of a report, and whether there is more.
pub fn snippet(report: &str) -> (r: Snippet)
    ensures
        r.truncated == (report@.len() > INLINE_CAP),
        r.text@ == (if report@.len() > INLINE_CAP {
            report@.take(INLINE_CAP as int)
        } else {
            report@
        }),
{
    let v = chars_of(report);
    if v.len() > INLINE_CAP {
        Snippet { text: text::slice_text(v.as_slice(), 0, INLINE_CAP), truncated: true }
    } else {
        Snippet { text: report.to_owned(), truncated: false }
    }
}

/// The start of a report that came as bytes.
pub fn report_snippet(body: &[u8]) -> (r: Snippet)
    ensures
        r.truncated == (text::lossy_text(body@).len() > INLINE_CAP),
        r.text@ == (if text::lossy_text(body@).len() > INLINE_CAP {
            text::lossy_text(body@).take(INLINE_CAP as int)
        } else {
            text::lossy_text(body@)
        }),
{
    let report = to_lossy_text(body);
    snippet(report.as_str())
}

/// A report's file name holds letters, digits and marks that are safe in a
/// path, whatever the client calls itself: no separator gets through.
pub proof fn law_client_names_make_safe_names(s: Seq<char>)
    ensures
        safe_name(s).len() == s.len(),
        forall|i: int|
            0 <= i < s.len() ==> text::is_alpha(#[trigger] safe_name(s)[i]) || text::is_digit(
                safe_name(s)[i],
            ) || safe_name(s)[i] == '_',
{
}

/// Letters and digits of a client's name stand in the file's name as they are.
pub proof fn law_letters_are_kept(s: Seq<char>, i: int)
    requires
        0 <= i < s.len(),
    ensures
        text::is_alpha(s[i]) || text::is_digit(s[i]) ==> safe_name(s)[i] == s[i],
        client_of(Some(s)) == s,
{
}

} // verus!
