//! Items that are added by their address on the web.

use vstd::prelude::*;
use vstd::string::*;
use crate::answer::{ApiError, Refusal};
use crate::path_text;
use crate::text::{self, trimmed};

verus! {

/// The library that holds the items from the web.
pub fn remote_library_name() -> (r: &'static str)
    ensures
        r@ == "Web Videos"@,
{
    "Web Videos"
}

/// The root of that library. It is the start of every path that is made up for
/// such an item, and no directory.
pub fn remote_library_root() -> (r: &'static str)
    ensures
        r@ == "ytdlp:"@,
{
    "ytdlp:"
}

/// What a client sends to add an item.
pub struct AddRemoteBody {
    pub url: String,
}

/// What a client is told of the item.
pub struct AddRemoteResponse {
    pub id: String,
    pub name: String,
    pub run_time_ticks: Option<u64>,
    pub already_present: bool,
}

/// The address to look up. `disabled` is what to say where the server looks up
/// none.
pub fn remote_url(enabled: bool, disabled: &str, body: &AddRemoteBody) -> (r: Result<
    String,
    ApiError,
>)
    ensures
        match r {
            Ok(url) => enabled && url@ == text::trim(body.url@) && url@.len() > 0,
            Err(e) => if !enabled {
                e.says(Refusal::ServiceUnavailable, disabled@)
            } else {
                text::trim(body.url@).len() == 0 && e.says(
                    Refusal::BadRequest,
                    "url is required"@,
                )
            },
        },
{
    if !enabled {
        return Err(ApiError::ServiceUnavailable(disabled.to_owned()));
    }
    let url = trimmed(body.url.as_str());
    if url.as_str().is_empty() {
        Err(ApiError::BadRequest("url is required".to_owned()))
    } else {
        Ok(url)
    }
}

/// What a client is told where an address could not be looked up: the site's
/// own reason.
pub fn remote_failure(url: &str, why: &str) -> (r: ApiError)
    ensures
        r.says(Refusal::BadGateway, "could not read "@ + url@ + ": "@ + why@),
{
    let mut out: String = "could not read ".to_owned();
    out.append(url);
    out.append(": ");
    out.append(why);
    ApiError::BadGateway(out)
}

/// What a client is told of the item that was added or found.
pub fn add_remote_item(
    id: &str,
    title: &str,
    duration_ms: Option<u64>,
    already_present: bool,
) -> (r: AddRemoteResponse)
    requires
        duration_ms is Some ==> duration_ms->0 * 10_000 <= u64::MAX,
    ensures
        r.id@ == id@,
        r.name@ == title@,
        r.run_time_ticks == (match duration_ms {
            Some(ms) => Some((ms * 10_000) as u64),
            None => None,
        }),
        r.already_present == already_present,
{
    AddRemoteResponse {
        id: id.to_owned(),
        name: title.to_owned(),
        run_time_ticks: match duration_ms {
            Some(ms) => Some(ms * 10_000),
            None => None,
        },
        already_present,
    }
}

// ----------------------------------------------------------------------- laws

proof fn lemma_first_part(pieces: Seq<Seq<char>>, n: int)
    requires
        1 <= n <= pieces.len(),
        pieces[0].len() > 0,
    ensures
        path_text::parts_below(pieces, n).len() >= 1,
        path_text::parts_below(pieces, n)[0] == pieces[0],
    decreases n,
{
    reveal_with_fuel(path_text::parts_below, 2);
    if n > 1 {
        lemma_first_part(pieces, n - 1);
    }
}

proof fn lemma_root_parts()
    ensures
        path_text::path_parts("ytdlp:"@) == seq!["ytdlp:"@],
        "ytdlp:"@.len() == 6,
        text::find_char("ytdlp:"@, '/') == 6,
{
    reveal_strlit("ytdlp:");
    reveal_with_fuel(text::find_char, 8);
    reveal_with_fuel(path_text::parts_below, 2);
    let s = "ytdlp:"@;
    assert(s.len() == 6);
    let s1 = s.subrange(1, 6);
    let s2 = s1.subrange(1, 5);
    let s3 = s2.subrange(1, 4);
    let s4 = s3.subrange(1, 3);
    let s5 = s4.subrange(1, 2);
    let s6 = s5.subrange(1, 1);
    assert(text::find_char(s6, '/') == 0);
    assert(text::find_char(s5, '/') == 1);
    assert(text::find_char(s4, '/') == 2);
    assert(text::find_char(s3, '/') == 3);
    assert(text::find_char(s2, '/') == 4);
    assert(text::find_char(s1, '/') == 5);
    assert(text::split(s, '/') == seq![s]);
    assert(s != seq!['.']);
    assert(path_text::parts_below(seq![s], 1) =~= seq![s]);
}

/// Every path that is made up for an item from the web lies in the library for
/// them.
pub proof fn law_remote_paths_lie_in_their_library(rest: Seq<char>)
    ensures
        path_text::lies_below("ytdlp:"@ + seq!['/'] + rest, "ytdlp:"@),
{
    lemma_root_parts();
    let root = "ytdlp:"@;
    let path = root + seq!['/'] + rest;
    reveal_strlit("ytdlp:");
    assert(path.take(6) =~= root);
    lemma_find_in_front(root, path);
    let pieces = text::split(path, '/');
    assert(path.subrange(0, 6) =~= root);
    assert(pieces[0] == root);
    lemma_first_part(pieces, pieces.len() as int);
    assert(path[0] == root[0]);
    assert(path_text::path_parts(path).take(1) =~= seq![root]);
}

/// A mark that stands in no front part is found behind it.
proof fn lemma_find_in_front(front: Seq<char>, s: Seq<char>)
    requires
        text::find_char(front, '/') == front.len(),
        front.len() < s.len(),
        s.take(front.len() as int) == front,
        s[front.len() as int] == '/',
    ensures
        text::find_char(s, '/') == front.len(),
    decreases front.len(),
{
    if front.len() > 0 {
        assert(s[0] == front[0]);
        assert(front[0] != '/');
        let f = front.subrange(1, front.len() as int);
        let t = s.subrange(1, s.len() as int);
        assert(t.take(f.len() as int) =~= f) by {
            assert forall|i: int| 0 <= i < f.len() implies t[i] == f[i] by {
                assert(s.take(front.len() as int)[i + 1] == front[i + 1]);
            }
        }
        lemma_find_in_front(f, t);
    }
}

/// No path of a file system lies in the library for items from the web, so that
/// no scan of its files touches them.
pub proof fn law_no_file_lies_in_the_remote_library(path: Seq<char>)
    requires
        path.len() > 0,
        path[0] == '/',
    ensures
        !path_text::lies_below(path, "ytdlp:"@),
{
    lemma_root_parts();
    reveal_strlit("ytdlp:");
    let parts = path_text::path_parts(path);
    let root = "ytdlp:"@;
    assert(parts[0] == seq!['/']);
    if path_text::lies_below(path, root) {
        assert(parts.take(1)[0] == root);
        assert(root[0] == 'y');
        assert(seq!['/'][0] == '/');
    }
}

} // verus!
