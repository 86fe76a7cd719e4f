//! The folders that clients see the libraries as, and their upkeep.

use vstd::prelude::*;
use vstd::string::*;
use crate::answer::{ApiError, Refusal};
use crate::browse::{self, copy_texts};
use crate::music::{self, hex_text};
use crate::parents::{self, RootRow};
use crate::path_text::{self, file_name_of, is_below};
use crate::seqs;
use crate::sort::{self, key_of_text, rank};
use crate::system;
use crate::text_sets::holds_text;
use crate::text::{self, copy_opt, eq_text, has_prefix, trimmed};

verus! {

/// A library as it is set up.
pub struct Library {
    pub wire_id: String,
    pub name: String,
    pub root_path: String,
    pub collection_type: String,
}

/// A library as a client's view.
pub struct LibraryView {
    pub id: String,
    pub name: String,
    pub collection_type: Option<String>,
}

/// The collection type that clients know. A library of mixed content has none.
pub open spec fn wire_type(ct: Seq<char>) -> Option<Seq<char>> {
    if ct == "mixed"@ || ct.len() == 0 {
        None
    } else {
        Some(ct)
    }
}

/// The type of a library as clients know it.
pub fn wire_collection_type(ct: &str) -> (r: Option<String>)
    ensures
        text::opt_text(r) == wire_type(ct@),
{
    if eq_text(ct, "mixed") || ct.is_empty() {
        None
    } else {
        Some(ct.to_owned())
    }
}

/// The id of the library at a root, from the number that its path makes:
/// thirty-two hexadecimal digits, the number twice.
pub fn library_id_for_root(stable_id: u64) -> (r: String)
    ensures
        r@ == music::hex_digits(stable_id as nat, 16) + music::hex_digits(stable_id as nat, 16),
{
    let half = hex_text(stable_id, 16);
    let mut out = half.clone();
    out.append(half.as_str());
    out
}

/// The name of a directory, and another where it has none.
pub open spec fn folder_name(path: Seq<char>, other: Seq<char>) -> Seq<char> {
    match path_text::file_name(path) {
        Some(n) => n,
        None => other,
    }
}

fn name_of_folder(path: &str, other: &str) -> (r: String)
    ensures
        r@ == folder_name(path@, other@),
{
    match file_name_of(path) {
        Some(n) => n,
        None => other.to_owned(),
    }
}

// ----------------------------------------------------------------------- views

/// An id, a name and a collection type.
pub type ViewTexts = (Seq<char>, Seq<char>, Option<Seq<char>>);

pub open spec fn view_texts(v: LibraryView) -> ViewTexts {
    (v.id@, v.name@, text::opt_text(v.collection_type))
}

pub open spec fn all_view_texts(v: Seq<LibraryView>) -> Seq<ViewTexts> {
    Seq::new(v.len(), |i: int| view_texts(v[i]))
}

/// The view that stands for everything.
pub open spec fn everything_view() -> ViewTexts {
    (parents::everything_id(), "All Media"@, None)
}

/// The views of a server: one for each library, and where there are none, one
/// for each directory with media, and where there are none of these either,
/// one for everything.
pub open spec fn views_of(libraries: Seq<Library>, roots: Seq<RootRow>) -> Seq<ViewTexts> {
    if libraries.len() > 0 {
        Seq::new(
            libraries.len(),
            |i: int|
                (
                    libraries[i].wire_id@,
                    libraries[i].name@,
                    wire_type(libraries[i].collection_type@),
                ),
        )
    } else if roots.len() == 0 {
        seq![everything_view()]
    } else {
        Seq::new(
            roots.len(),
            |i: int| (roots[i].id@, folder_name(roots[i].path@, "Media"@), None),
        )
    }
}

/// The view that stands for everything.
pub fn all_media_placeholder() -> (r: LibraryView)
    ensures
        view_texts(r) == everything_view(),
{
    LibraryView {
        id: "00000000000000000000000000000000".to_owned(),
        name: "All Media".to_owned(),
        collection_type: None,
    }
}

/// The views that clients see.
pub fn library_views(libraries: &Vec<Library>, roots: &Vec<RootRow>) -> (r: Vec<LibraryView>)
    ensures
        all_view_texts(r@) == views_of(libraries@, roots@),
{
    let mut out: Vec<LibraryView> = Vec::new();
    let ghost all = views_of(libraries@, roots@);
    let mut i: usize = 0;
    if libraries.len() > 0 {
        while i < libraries.len()
            invariant
                i <= libraries@.len(),
                libraries@.len() > 0,
                all == views_of(libraries@, roots@),
                all_view_texts(out@) == all.take(i as int),
            decreases libraries@.len() - i,
        {
            let ghost before = out@;
            let l: &Library = &libraries[i];
            out.push(
                LibraryView {
                    id: l.wire_id.clone(),
                    name: l.name.clone(),
                    collection_type: wire_collection_type(l.collection_type.as_str()),
                },
            );
            i += 1;
            proof {
                assert(all_view_texts(out@) == all_view_texts(before).push(all[i - 1]));
                assert(all.take(i as int) == all.take(i - 1).push(all[i - 1]));
            }
        }
        proof {
            assert(all.take(i as int) == all);
        }
        return out;
    }
    if roots.len() == 0 {
        out.push(all_media_placeholder());
        proof {
            assert(all_view_texts(out@) == all);
        }
        return out;
    }
    while i < roots.len()
        invariant
            i <= roots@.len(),
            libraries@.len() == 0,
            roots@.len() > 0,
            all == views_of(libraries@, roots@),
            all_view_texts(out@) == all.take(i as int),
        decreases roots@.len() - i,
    {
        let ghost before = out@;
        out.push(
            LibraryView {
                id: roots[i].id.clone(),
                name: name_of_folder(roots[i].path.as_str(), "Media"),
                collection_type: None,
            },
        );
        i += 1;
        proof {
            assert(all_view_texts(out@) == all_view_texts(before).push(all[i - 1]));
            assert(all.take(i as int) == all.take(i - 1).push(all[i - 1]));
        }
    }
    proof {
        assert(all.take(i as int) == all);
    }
    out
}

/// Where the view with an id stands.
pub fn library_view_for_id(views: &Vec<LibraryView>, id: &str) -> (r: Option<usize>)
    ensures
        parents::opt_place(r) == seqs::first_index(
            |i: int| views@[i].id@ == id@,
            0,
            views@.len() as int,
        ),
{
    let ghost wanted = |i: int| views@[i].id@ == id@;
    let mut i: usize = 0;
    while i < views.len()
        invariant
            i <= views@.len(),
            wanted == (|i: int| views@[i].id@ == id@),
            forall|j: int| 0 <= j < i ==> !#[trigger] wanted(j),
        decreases views@.len() - i,
    {
        if eq_text(views[i].id.as_str(), id) {
            proof {
                seqs::lemma_first_index(wanted, 0, i as int, views@.len() as int);
            }
            return Some(i);
        }
        i += 1;
    }
    proof {
        seqs::lemma_first_index(wanted, 0, i as int, views@.len() as int);
    }
    None
}

pub open spec fn lies_above(path: Seq<char>, roots: Seq<RootRow>) -> spec_fn(int) -> bool {
    |i: int| path_text::lies_below(path, roots[i].path@)
}

/// The directory with media that a file lies below.
pub open spec fn root_above(path: Seq<char>, roots: Seq<RootRow>) -> Option<int> {
    seqs::first_index(lies_above(path, roots), 0, roots.len() as int)
}

/// The options of a library that are kept with it: where its files lie is kept
/// apart.
pub open spec fn kept_option() -> spec_fn(system::Setting) -> bool {
    |o: system::Setting| o.0 != "PathInfos"@
}

/// The options to keep for a library, with the name that they are kept under.
pub fn update_virtual_folder_options(
    admin: bool,
    id: Option<&str>,
    options: &Option<Vec<(String, String)>>,
) -> (r: Result<(String, Vec<(String, String)>), ApiError>)
    ensures
        match r {
            Ok(kept) => {
                &&& admin && id is Some
                &&& kept.0@ == "libopts:"@ + id->0@
                &&& system::setting_texts(kept.1@) == (match *options {
                    Some(v) => seqs::keep(system::setting_texts(v@), kept_option()),
                    None => Seq::empty(),
                })
            },
            Err(e) => if !admin {
                e.says(Refusal::Forbidden, "admin required"@)
            } else {
                id is None && e.says(Refusal::BadRequest, "missing Id"@)
            },
        },
{
    if !admin {
        return Err(ApiError::Forbidden("admin required".to_owned()));
    }
    let mut key: String = "libopts:".to_owned();
    match id {
        Some(i) => {
            key.append(i);
        },
        None => {
            return Err(ApiError::BadRequest("missing Id".to_owned()));
        },
    }
    let mut out: Vec<(String, String)> = Vec::new();
    proof {
        assert(system::setting_texts(out@) =~= Seq::<system::Setting>::empty());
    }
    if let Some(v) = options {
        let ghost all = system::setting_texts(v@);
        let mut i: usize = 0;
        proof {
            assert(all.take(0) =~= Seq::<system::Setting>::empty());
        }
        while i < v.len()
            invariant
                i <= v@.len(),
                all == system::setting_texts(v@),
                system::setting_texts(out@) =~= seqs::keep(all.take(i as int), kept_option()),
            decreases v@.len() - i,
        {
            let ghost before = out@;
            proof {
                seqs::lemma_keep_step(all, kept_option(), i as int);
                assert(all[i as int] == (v@[i as int].0@, v@[i as int].1@));
            }
            if !eq_text(v[i].0.as_str(), "PathInfos") {
                out.push((v[i].0.clone(), v[i].1.clone()));
                proof {
                    assert(system::setting_texts(out@) =~= system::setting_texts(before).push(
                        all[i as int],
                    ));
                }
            }
            i += 1;
        }
        proof {
            assert(all.take(i as int) =~= all);
        }
    }
    Ok((key, out))
}

/// Where a library's files lie is never kept with its options.
pub proof fn law_locations_are_kept_apart(options: Seq<system::Setting>, o: system::Setting)
    requires
        seqs::keep(options, kept_option()).contains(o),
    ensures
        o.0 != "PathInfos"@,
        options.contains(o),
{
    seqs::lemma_keep_members(options, kept_option());
}

/// The parent of an item: its own, and else the directory with media that its
/// file lies below.
pub open spec fn parent_of_item(
    own: Option<Seq<char>>,
    path: Seq<char>,
    roots: Seq<RootRow>,
) -> Option<Seq<char>> {
    match own {
        Some(id) => Some(id),
        None => match root_above(path, roots) {
            Some(k) => Some(roots[k].id@),
            None => None,
        },
    }
}

/// The parent of an item.
pub fn fill_parent_id(own: &Option<String>, path: &str, roots: &Vec<RootRow>) -> (r: Option<String>)
    ensures
        text::opt_text(r) == parent_of_item(text::opt_text(*own), path@, roots@),
{
    if own.is_some() {
        return copy_opt(own);
    }
    library_parent_id(path, roots)
}

/// The id of the directory with media that a file lies below.
pub fn library_parent_id(path: &str, roots: &Vec<RootRow>) -> (r: Option<String>)
    ensures
        text::opt_text(r) == (match root_above(path@, roots@) {
            Some(k) => Some(roots@[k].id@),
            None => None,
        }),
{
    let ghost wanted = lies_above(path@, roots@);
    let mut i: usize = 0;
    while i < roots.len()
        invariant
            i <= roots@.len(),
            wanted == lies_above(path@, roots@),
            forall|j: int| 0 <= j < i ==> !#[trigger] wanted(j),
        decreases roots@.len() - i,
    {
        if is_below(path, roots[i].path.as_str()) {
            proof {
                seqs::lemma_first_index(wanted, 0, i as int, roots@.len() as int);
            }
            return Some(roots[i].id.clone());
        }
        i += 1;
    }
    proof {
        seqs::lemma_first_index(wanted, 0, i as int, roots@.len() as int);
    }
    None
}

// -------------------------------------------------------------------- folders

/// A library as a folder of the dashboard.
pub struct VirtualFolder {
    pub name: String,
    pub root_path: String,
    pub collection_type: String,
    pub wire_id: String,
}

/// A name, a path, a collection type and an id.
pub type FolderTexts = (Seq<char>, Seq<char>, Seq<char>, Seq<char>);

pub open spec fn folder_texts(v: Seq<VirtualFolder>) -> Seq<FolderTexts> {
    Seq::new(
        v.len(),
        |i: int| (v[i].name@, v[i].root_path@, v[i].collection_type@, v[i].wire_id@),
    )
}

/// The folders of a server: one for each library, and where there are none, one
/// for each directory with media, and where there are none of these either,
/// one for everything.
pub open spec fn folders_of(libraries: Seq<Library>, roots: Seq<RootRow>) -> Seq<FolderTexts> {
    if libraries.len() > 0 {
        Seq::new(
            libraries.len(),
            |i: int|
                (
                    libraries[i].name@,
                    libraries[i].root_path@,
                    libraries[i].collection_type@,
                    libraries[i].wire_id@,
                ),
        )
    } else if roots.len() == 0 {
        seq![("All Media"@, Seq::empty(), "mixed"@, parents::everything_id())]
    } else {
        Seq::new(
            roots.len(),
            |i: int|
                (
                    folder_name(roots[i].path@, "Media"@),
                    roots[i].path@,
                    "mixed"@,
                    roots[i].id@,
                ),
        )
    }
}

/// The folders that an administrator sees.
pub fn virtual_folders(libraries: &Vec<Library>, roots: &Vec<RootRow>) -> (r: Vec<VirtualFolder>)
    ensures
        folder_texts(r@) == folders_of(libraries@, roots@),
{
    let mut out: Vec<VirtualFolder> = Vec::new();
    let ghost all = folders_of(libraries@, roots@);
    let mut i: usize = 0;
    if libraries.len() > 0 {
        while i < libraries.len()
            invariant
                i <= libraries@.len(),
                libraries@.len() > 0,
                all == folders_of(libraries@, roots@),
                folder_texts(out@) == all.take(i as int),
            decreases libraries@.len() - i,
        {
            let ghost before = out@;
            let l: &Library = &libraries[i];
            out.push(
                VirtualFolder {
                    name: l.name.clone(),
                    root_path: l.root_path.clone(),
                    collection_type: l.collection_type.clone(),
                    wire_id: l.wire_id.clone(),
                },
            );
            i += 1;
            proof {
                assert(folder_texts(out@) == folder_texts(before).push(all[i - 1]));
                assert(all.take(i as int) == all.take(i - 1).push(all[i - 1]));
            }
        }
        proof {
            assert(all.take(i as int) == all);
        }
        return out;
    }
    if roots.len() == 0 {
        let everything = VirtualFolder {
            name: "All Media".to_owned(),
            root_path: String::new(),
            collection_type: "mixed".to_owned(),
            wire_id: "00000000000000000000000000000000".to_owned(),
        };
        out.push(everything);
        proof {
            assert(out@[0].root_path@ =~= Seq::<char>::empty());
            assert(folder_texts(out@) =~= all);
        }
        return out;
    }
    while i < roots.len()
        invariant
            i <= roots@.len(),
            libraries@.len() == 0,
            roots@.len() > 0,
            all == folders_of(libraries@, roots@),
            folder_texts(out@) == all.take(i as int),
        decreases roots@.len() - i,
    {
        let ghost before = out@;
        out.push(
            VirtualFolder {
                name: name_of_folder(roots[i].path.as_str(), "Media"),
                root_path: roots[i].path.clone(),
                collection_type: "mixed".to_owned(),
                wire_id: roots[i].id.clone(),
            },
        );
        i += 1;
        proof {
            assert(folder_texts(out@) == folder_texts(before).push(all[i - 1]));
            assert(all.take(i as int) == all.take(i - 1).push(all[i - 1]));
        }
    }
    proof {
        assert(all.take(i as int) == all);
    }
    out
}

/// The directories of a folder: its root, if it has one, and what was added.
pub fn folder_locations(root_path: &str, extra: &Vec<String>) -> (r: Vec<String>)
    ensures
        text::texts(r@) == (if root_path@.len() > 0 {
            seq![root_path@]
        } else {
            Seq::empty()
        }) + text::texts(extra@),
{
    let mut out: Vec<String> = Vec::new();
    if !root_path.is_empty() {
        out.push(root_path.to_owned());
    }
    let ghost head = text::texts(out@);
    proof {
        assert(head == (if root_path@.len() > 0 {
            seq![root_path@]
        } else {
            Seq::empty()
        }));
    }
    let mut i: usize = 0;
    while i < extra.len()
        invariant
            i <= extra@.len(),
            text::texts(out@) == head + text::texts(extra@).take(i as int),
        decreases extra@.len() - i,
    {
        let ghost before = out@;
        out.push(extra[i].clone());
        i += 1;
        proof {
            assert(text::texts(out@) == text::texts(before).push(extra@[i - 1]@));
            assert(text::texts(extra@).take(i as int) == text::texts(extra@).take(i - 1).push(
                text::texts(extra@)[i - 1],
            ));
        }
    }
    proof {
        assert(text::texts(extra@).take(i as int) == text::texts(extra@));
    }
    out
}

// ------------------------------------------------------------- adding a library

/// Whether a text has something in it beside white space.
pub open spec fn is_filled() -> spec_fn(Seq<char>) -> bool {
    |s: Seq<char>| text::trim(s).len() > 0
}

/// The directories of a new library: those in the body that are not blank, and
/// where there are none, the one in the query.
pub open spec fn given_paths(body: Seq<Seq<char>>, query: Option<Seq<char>>) -> Seq<Seq<char>> {
    let paths = seqs::keep(body, is_filled());
    if paths.len() > 0 {
        paths
    } else if query is Some && text::trim(query->0).len() > 0 {
        seq![query->0]
    } else {
        Seq::empty()
    }
}

/// The directories of a new library, and the refusal of one that has none.
pub fn library_paths(body: &Vec<String>, query: Option<&str>) -> (r: Result<Vec<String>, ApiError>)
    ensures
        match r {
            Ok(v) => v@.len() > 0 && text::texts(v@) == given_paths(
                text::texts(body@),
                browse::opt_str(query),
            ),
            Err(e) => {
                &&& given_paths(text::texts(body@), browse::opt_str(query)).len() == 0
                &&& e.says(
                    Refusal::BadRequest,
                    "no library path supplied (LibraryOptions.PathInfos[].Path)"@,
                )
            },
        },
{
    let mut out: Vec<String> = Vec::new();
    let ghost all = text::texts(body@);
    let mut i: usize = 0;
    proof {
        assert(all.take(0) == Seq::<Seq<char>>::empty());
        assert(text::texts(out@) == Seq::<Seq<char>>::empty());
    }
    while i < body.len()
        invariant
            i <= body@.len(),
            all == text::texts(body@),
            text::texts(out@) == seqs::keep(all.take(i as int), is_filled()),
        decreases body@.len() - i,
    {
        proof {
            seqs::lemma_keep_step(all, is_filled(), i as int);
            assert(all[i as int] == body@[i as int]@);
        }
        if !trimmed(body[i].as_str()).as_str().is_empty() {
            let ghost before = out@;
            out.push(body[i].clone());
            proof {
                assert(text::texts(out@) == text::texts(before).push(all[i as int]));
            }
        }
        i += 1;
    }
    proof {
        assert(all.take(i as int) == all);
        assert(text::texts(out@).len() == out@.len());
    }
    if out.len() == 0 {
        if let Some(p) = query {
            if !trimmed(p).as_str().is_empty() {
                out.push(p.to_owned());
                proof {
                    assert(text::texts(out@) =~= seq![p@]);
                }
                return Ok(out);
            }
        }
        return Err(
            ApiError::BadRequest(
                "no library path supplied (LibraryOptions.PathInfos[].Path)".to_owned(),
            ),
        );
    }
    Ok(out)
}

/// The name of a new library: the one that is given for its first directory,
/// with the directory's own name for the others, and the directory's name
/// where none is given.
pub open spec fn new_name(given: Option<Seq<char>>, first: bool, path: Seq<char>) -> Seq<char> {
    match given {
        Some(n) => if first {
            n
        } else {
            n + " ("@ + folder_name(path, "extra"@) + ")"@
        },
        None => folder_name(path, "Media"@),
    }
}

/// The name of a new library.
pub fn library_name(given: Option<&str>, first: bool, path: &str) -> (r: String)
    ensures
        r@ == new_name(browse::opt_str(given), first, path@),
{
    match given {
        Some(n) => if first {
            n.to_owned()
        } else {
            let mut out: String = n.to_owned();
            out.append(" (");
            out.append(name_of_folder(path, "extra").as_str());
            out.append(")");
            out
        },
        None => name_of_folder(path, "Media"),
    }
}

/// Whether a path lies below one of the directories with media.
pub open spec fn is_covered(roots: Seq<RootRow>, path: Seq<char>) -> bool {
    exists|i: int|
        0 <= i < roots.len() && path_text::lies_below(path, #[trigger] roots[i].path@)
}

fn covers(roots: &Vec<RootRow>, path: &str) -> (r: bool)
    ensures
        r == is_covered(roots@, path@),
{
    let mut i: usize = 0;
    while i < roots.len()
        invariant
            i <= roots@.len(),
            forall|k: int|
                0 <= k < i ==> !path_text::lies_below(path@, #[trigger] roots@[k].path@),
        decreases roots@.len() - i,
    {
        if is_below(path, roots[i].path.as_str()) {
            return true;
        }
        i += 1;
    }
    false
}

/// The directories of a new library that are still to be scanned: those below
/// no directory with media.
pub fn new_roots(paths: &Vec<String>, roots: &Vec<RootRow>) -> (r: Vec<String>)
    ensures
        text::texts(r@) == seqs::keep(
            text::texts(paths@),
            |p: Seq<char>| !is_covered(roots@, p),
        ),
{
    let ghost wanted = |p: Seq<char>| !is_covered(roots@, p);
    let ghost all = text::texts(paths@);
    let mut out: Vec<String> = Vec::new();
    let mut i: usize = 0;
    proof {
        assert(all.take(0) == Seq::<Seq<char>>::empty());
        assert(text::texts(out@) == Seq::<Seq<char>>::empty());
    }
    while i < paths.len()
        invariant
            i <= paths@.len(),
            all == text::texts(paths@),
            wanted == (|p: Seq<char>| !is_covered(roots@, p)),
            text::texts(out@) == seqs::keep(all.take(i as int), wanted),
        decreases paths@.len() - i,
    {
        proof {
            seqs::lemma_keep_step(all, wanted, i as int);
            assert(all[i as int] == paths@[i as int]@);
        }
        if !covers(roots, paths[i].as_str()) {
            let ghost before = out@;
            out.push(paths[i].clone());
            proof {
                assert(text::texts(out@) == text::texts(before).push(all[i as int]));
            }
        }
        i += 1;
    }
    proof {
        assert(all.take(i as int) == all);
    }
    out
}

/// What adding a library comes to: the libraries to set up, each with its
/// directory, and the directories to scan.
pub struct AddFolderPlan {
    pub libraries: Vec<(String, String)>,
    pub scan: Vec<String>,
}

pub open spec fn pair_texts(v: Seq<(String, String)>) -> Seq<(Seq<char>, Seq<char>)> {
    Seq::new(v.len(), |i: int| (v[i].0@, v[i].1@))
}

/// The libraries to set up for some directories: one for each.
pub open spec fn new_libraries(name: Option<Seq<char>>, paths: Seq<Seq<char>>) -> Seq<
    (Seq<char>, Seq<char>),
> {
    Seq::new(paths.len(), |i: int| (new_name(name, i == 0, paths[i]), paths[i]))
}

/// Plans the libraries that an administrator adds: one for each directory, and
/// a scan of those that lie below no directory with media.
pub fn add_virtual_folder(
    name: Option<&str>,
    body: &Vec<String>,
    query: Option<&str>,
    roots: &Vec<RootRow>,
) -> (r: Result<AddFolderPlan, ApiError>)
    ensures
        ({
            let paths = given_paths(text::texts(body@), browse::opt_str(query));
            match r {
                Ok(p) => {
                    &&& paths.len() > 0
                    &&& pair_texts(p.libraries@) == new_libraries(browse::opt_str(name), paths)
                    &&& text::texts(p.scan@) == seqs::keep(
                        paths,
                        |p: Seq<char>| !is_covered(roots@, p),
                    )
                },
                Err(e) => paths.len() == 0 && e.says(
                    Refusal::BadRequest,
                    "no library path supplied (LibraryOptions.PathInfos[].Path)"@,
                ),
            }
        }),
{
    let paths = match library_paths(body, query) {
        Ok(p) => p,
        Err(e) => {
            return Err(e);
        },
    };
    let ghost views = text::texts(paths@);
    let ghost all = new_libraries(browse::opt_str(name), views);
    let mut libraries: Vec<(String, String)> = Vec::new();
    let mut i: usize = 0;
    while i < paths.len()
        invariant
            i <= paths@.len(),
            views == text::texts(paths@),
            all == new_libraries(browse::opt_str(name), views),
            pair_texts(libraries@) == all.take(i as int),
        decreases paths@.len() - i,
    {
        let ghost before = libraries@;
        libraries.push((library_name(name, i == 0, paths[i].as_str()), paths[i].clone()));
        i += 1;
        proof {
            assert(views[i - 1] == paths@[i - 1]@);
            assert(pair_texts(libraries@) =~= pair_texts(before).push(all[i - 1]));
            assert(all.take(i as int) =~= all.take(i - 1).push(all[i - 1]));
        }
    }
    proof {
        assert(all.take(i as int) =~= all);
        assert(views.len() == paths@.len());
    }
    Ok(AddFolderPlan { libraries, scan: new_roots(&paths, roots) })
}

// -------------------------------------------------------------- upkeep of folders

pub open spec fn has_name(libraries: Seq<Library>, name: Seq<char>) -> spec_fn(int) -> bool {
    |i: int| libraries[i].name@ == name
}

/// Where the library with a name stands.
pub open spec fn library_named(libraries: Seq<Library>, name: Seq<char>) -> Option<int> {
    seqs::first_index(has_name(libraries, name), 0, libraries.len() as int)
}

fn find_named(libraries: &Vec<Library>, name: &str) -> (r: Option<usize>)
    ensures
        parents::opt_place(r) == library_named(libraries@, name@),
        r is Some ==> r->0 < libraries@.len(),
{
    let ghost wanted = has_name(libraries@, name@);
    let mut i: usize = 0;
    while i < libraries.len()
        invariant
            i <= libraries@.len(),
            wanted == has_name(libraries@, name@),
            forall|j: int| 0 <= j < i ==> !#[trigger] wanted(j),
        decreases libraries@.len() - i,
    {
        if eq_text(libraries[i].name.as_str(), name) {
            proof {
                seqs::lemma_first_index(wanted, 0, i as int, libraries@.len() as int);
            }
            return Some(i);
        }
        i += 1;
    }
    proof {
        seqs::lemma_first_index(wanted, 0, i as int, libraries@.len() as int);
    }
    None
}

/// The id of the library with a name.
pub fn wire_id_for_library_name(libraries: &Vec<Library>, name: &str) -> (r: Option<String>)
    ensures
        text::opt_text(r) == (match library_named(libraries@, name@) {
            Some(k) => Some(libraries@[k].wire_id@),
            None => None,
        }),
{
    match find_named(libraries, name) {
        Some(k) => Some(libraries[k].wire_id.clone()),
        None => None,
    }
}

/// The root of the library that is to be removed.
pub fn remove_virtual_folder(name: Option<&str>, libraries: &Vec<Library>) -> (r: Result<
    String,
    ApiError,
>)
    ensures
        match r {
            Ok(root) => {
                &&& name is Some && text::trim(name->0@).len() > 0
                &&& library_named(libraries@, name->0@) matches Some(k) && root@
                    == libraries@[k].root_path@
            },
            Err(e) => if name is Some && text::trim(name->0@).len() > 0 {
                library_named(libraries@, name->0@) is None && e.says(
                    Refusal::NotFound,
                    "no such library"@,
                )
            } else {
                e.says(Refusal::BadRequest, "missing ?name="@)
            },
        },
{
    match name {
        Some(n) => if trimmed(n).as_str().is_empty() {
            Err(ApiError::BadRequest("missing ?name=".to_owned()))
        } else {
            match find_named(libraries, n) {
                Some(k) => Ok(libraries[k].root_path.clone()),
                None => Err(ApiError::NotFound("no such library".to_owned())),
            }
        },
        None => Err(ApiError::BadRequest("missing ?name=".to_owned())),
    }
}

/// The id and the new name of the library that is to be renamed.
pub fn rename_virtual_folder(id: Option<&str>, new_name: Option<&str>) -> (r: Result<
    (String, String),
    ApiError,
>)
    ensures
        match r {
            Ok((i, n)) => {
                &&& id is Some && id->0@.len() > 0 && i@ == id->0@
                &&& new_name is Some && n@ == text::trim(new_name->0@) && n@.len() > 0
            },
            Err(e) => if id is None || id->0@.len() == 0 {
                e.says(Refusal::BadRequest, "missing id"@)
            } else {
                &&& new_name is None || text::trim(new_name->0@).len() == 0
                &&& e.says(Refusal::BadRequest, "missing newName"@)
            },
        },
{
    let i: &str = match id {
        Some(i) => i,
        None => "",
    };
    if id.is_none() || i.is_empty() {
        return Err(ApiError::BadRequest("missing id".to_owned()));
    }
    match new_name {
        Some(n) => {
            let t = trimmed(n);
            if t.as_str().is_empty() {
                Err(ApiError::BadRequest("missing newName".to_owned()))
            } else {
                Ok((i.to_owned(), t))
            }
        },
        None => Err(ApiError::BadRequest("missing newName".to_owned())),
    }
}

/// What a change of the store comes to: a change of nothing is of a library
/// that is not there.
pub fn require_changed(updated: u64) -> (r: Result<(), ApiError>)
    ensures
        r is Ok <==> updated != 0,
        r matches Err(e) ==> e.says(Refusal::NotFound, "no such library"@),
{
    if updated == 0 {
        Err(ApiError::NotFound("no such library".to_owned()))
    } else {
        Ok(())
    }
}

/// A row of directories with one more, unless it is there.
pub open spec fn with_path(paths: Seq<Seq<char>>, path: Seq<char>) -> Seq<Seq<char>> {
    if paths.contains(path) {
        paths
    } else {
        paths.push(path)
    }
}

pub open spec fn other_than(path: Seq<char>) -> spec_fn(Seq<char>) -> bool {
    |p: Seq<char>| p != path
}

/// A row of directories without one.
pub open spec fn without_path(paths: Seq<Seq<char>>, path: Seq<char>) -> Seq<Seq<char>> {
    seqs::keep(paths, other_than(path))
}

/// The library that a directory is to be added to, with the directory.
pub fn add_media_path_target(name: &str, path: &str, libraries: &Vec<Library>) -> (r: Result<
    (String, String),
    ApiError,
>)
    ensures
        match r {
            Ok((wire, p)) => {
                &&& text::trim(name@).len() > 0 && p@ == text::trim(path@) && p@.len() > 0
                &&& library_named(libraries@, text::trim(name@)) matches Some(k) && wire@
                    == libraries@[k].wire_id@
            },
            Err(e) => if text::trim(name@).len() == 0 || text::trim(path@).len() == 0 {
                e.says(Refusal::BadRequest, "Name and PathInfo.Path required"@)
            } else {
                library_named(libraries@, text::trim(name@)) is None && e.says(
                    Refusal::NotFound,
                    "no such library"@,
                )
            },
        },
{
    let n = trimmed(name);
    let p = trimmed(path);
    if n.as_str().is_empty() || p.as_str().is_empty() {
        return Err(ApiError::BadRequest("Name and PathInfo.Path required".to_owned()));
    }
    match find_named(libraries, n.as_str()) {
        Some(k) => Ok((libraries[k].wire_id.clone(), p)),
        None => Err(ApiError::NotFound("no such library".to_owned())),
    }
}

/// The directories of a library with one more, unless it is there.
pub fn add_media_path(paths: &Vec<String>, path: &str) -> (r: Vec<String>)
    ensures
        text::texts(r@) == with_path(text::texts(paths@), path@),
{
    let mut out = copy_texts(paths);
    if !holds_text(paths, path) {
        let ghost before = out@;
        out.push(path.to_owned());
        proof {
            assert(text::texts(out@) =~= text::texts(before).push(path@));
        }
    }
    out
}

/// The library that a directory is to be taken from.
pub fn remove_media_path_target(
    name: Option<&str>,
    path: Option<&str>,
    libraries: &Vec<Library>,
) -> (r: Result<String, ApiError>)
    ensures
        match r {
            Ok(wire) => {
                &&& name is Some && text::trim(name->0@).len() > 0
                &&& path is Some && text::trim(path->0@).len() > 0
                &&& library_named(libraries@, name->0@) matches Some(k) && wire@
                    == libraries@[k].wire_id@
            },
            Err(e) => if name is None || text::trim(name->0@).len() == 0 {
                e.says(Refusal::BadRequest, "missing name"@)
            } else if path is None || text::trim(path->0@).len() == 0 {
                e.says(Refusal::BadRequest, "missing path"@)
            } else {
                library_named(libraries@, name->0@) is None && e.says(
                    Refusal::NotFound,
                    "no such library"@,
                )
            },
        },
{
    let n: &str = match name {
        Some(n) => n,
        None => {
            return Err(ApiError::BadRequest("missing name".to_owned()));
        },
    };
    if trimmed(n).as_str().is_empty() {
        return Err(ApiError::BadRequest("missing name".to_owned()));
    }
    let p: &str = match path {
        Some(p) => p,
        None => {
            return Err(ApiError::BadRequest("missing path".to_owned()));
        },
    };
    if trimmed(p).as_str().is_empty() {
        return Err(ApiError::BadRequest("missing path".to_owned()));
    }
    match find_named(libraries, n) {
        Some(k) => Ok(libraries[k].wire_id.clone()),
        None => Err(ApiError::NotFound("no such library".to_owned())),
    }
}

/// The directories of a library without one.
pub fn remove_media_path(paths: &Vec<String>, path: &str) -> (r: Vec<String>)
    ensures
        text::texts(r@) == without_path(text::texts(paths@), path@),
{
    let ghost wanted = other_than(path@);
    let ghost all = text::texts(paths@);
    let mut out: Vec<String> = Vec::new();
    let mut i: usize = 0;
    proof {
        assert(all.take(0) == Seq::<Seq<char>>::empty());
        assert(text::texts(out@) == Seq::<Seq<char>>::empty());
    }
    while i < paths.len()
        invariant
            i <= paths@.len(),
            all == text::texts(paths@),
            wanted == other_than(path@),
            text::texts(out@) == seqs::keep(all.take(i as int), wanted),
        decreases paths@.len() - i,
    {
        proof {
            seqs::lemma_keep_step(all, wanted, i as int);
            assert(all[i as int] == paths@[i as int]@);
        }
        if !eq_text(paths[i].as_str(), path) {
            let ghost before = out@;
            out.push(paths[i].clone());
            proof {
                assert(text::texts(out@) == text::texts(before).push(all[i as int]));
            }
        }
        i += 1;
    }
    proof {
        assert(all.take(i as int) == all);
    }
    out
}

/// The name of a new collection.
pub fn create_collection(name: Option<&str>) -> (r: Result<String, ApiError>)
    ensures
        match r {
            Ok(n) => name is Some && n@ == text::trim(name->0@) && n@.len() > 0,
            Err(e) => (name is None || text::trim(name->0@).len() == 0) && e.says(
                Refusal::BadRequest,
                "Name is required"@,
            ),
        },
{
    match name {
        Some(n) => {
            let t = trimmed(n);
            if t.as_str().is_empty() {
                Err(ApiError::BadRequest("Name is required".to_owned()))
            } else {
                Ok(t)
            }
        },
        None => Err(ApiError::BadRequest("Name is required".to_owned())),
    }
}

// ----------------------------------------------------------------- directories

/// An entry of a directory on the server.
pub struct DirectoryEntry {
    pub name: String,
    pub path: String,
    pub is_dir: bool,
}

/// Whether the folder picker shows an entry. Hidden ones it does not, and where
/// nothing is asked for it shows directories.
pub open spec fn is_shown(e: DirectoryEntry, directories: bool, files: bool) -> bool {
    &&& if e.is_dir {
        directories || !files
    } else {
        files
    }
    &&& !text::starts_with(e.name@, "."@)
}

pub open spec fn entry_names(es: Seq<DirectoryEntry>) -> spec_fn(int) -> Seq<int> {
    |i: int| sort::text_key(es[i].name@)
}

pub open spec fn shown_entries(es: Seq<DirectoryEntry>, directories: bool, files: bool) -> spec_fn(
    int,
) -> bool {
    |i: int| is_shown(es[i], directories, files)
}

/// The directory that the folder picker lists.
pub fn picker_path(path: Option<&str>) -> (r: String)
    ensures
        r@ == (if path is Some && path->0@.len() > 0 {
            path->0@
        } else {
            "/"@
        }),
{
    match path {
        Some(p) => if p.is_empty() {
            "/".to_owned()
        } else {
            p.to_owned()
        },
        None => "/".to_owned(),
    }
}

/// The entries that the folder picker shows, by name: their places.
pub fn environment_directory_contents(
    es: &Vec<DirectoryEntry>,
    directories: bool,
    files: bool,
) -> (r: Vec<usize>)
    ensures
        sort::ranked(
            r@,
            es@.len() as int,
            shown_entries(es@, directories, files),
            entry_names(es@),
        ),
{
    let ghost wanted = shown_entries(es@, directories, files);
    let ghost key = entry_names(es@);
    let mut keys: Vec<Option<Vec<i64>>> = Vec::new();
    let mut i: usize = 0;
    while i < es.len()
        invariant
            i <= es@.len(),
            keys@.len() == i,
            wanted == shown_entries(es@, directories, files),
            key == entry_names(es@),
            forall|k: int|
                0 <= k < i ==> (#[trigger] sort::opt_keys(keys@)[k]) == (if wanted(k) {
                    Some(key(k))
                } else {
                    None
                }),
        decreases es@.len() - i,
    {
        let ghost before = keys@;
        let e: &DirectoryEntry = &es[i];
        let asked: bool = if e.is_dir {
            directories || !files
        } else {
            files
        };
        let k: Option<Vec<i64>> = if asked && !has_prefix(e.name.as_str(), ".") {
            Some(key_of_text(e.name.as_str()))
        } else {
            None
        };
        keys.push(k);
        proof {
            assert forall|k: int| 0 <= k < i + 1 implies (#[trigger] sort::opt_keys(keys@)[k]) == (
            if wanted(k) {
                Some(key(k))
            } else {
                None
            }) by {
                if k < i {
                    assert(sort::opt_keys(keys@)[k] == sort::opt_keys(before)[k]);
                }
            }
        }
        i += 1;
    }
    let ghost views = sort::opt_keys(keys@);
    let r = rank(keys, Ghost(key));
    proof {
        assert forall|k: usize| #[trigger] r@.contains(k) <==> k < es@.len() && wanted(
            k as int,
        ) by {
            if k < es@.len() {
                assert(views[k as int] is Some <==> wanted(k as int));
            }
        }
    }
    r
}

// ----------------------------------------------------------------------- laws

/// A server always has a view to show.
pub proof fn law_there_is_a_view(libraries: Seq<Library>, roots: Seq<RootRow>)
    ensures
        views_of(libraries, roots).len() > 0,
        folders_of(libraries, roots).len() == views_of(libraries, roots).len(),
{
}

/// The views and the folders of a server go by the same ids.
pub proof fn law_views_and_folders_share_ids(libraries: Seq<Library>, roots: Seq<RootRow>, i: int)
    requires
        0 <= i < views_of(libraries, roots).len(),
    ensures
        views_of(libraries, roots)[i].0 == folders_of(libraries, roots)[i].3,
        views_of(libraries, roots)[i].1 == folders_of(libraries, roots)[i].0,
{
}

/// A directory is added once, however often it is added, and is there then.
pub proof fn law_a_path_is_added_once(paths: Seq<Seq<char>>, path: Seq<char>)
    ensures
        with_path(paths, path).contains(path),
        with_path(with_path(paths, path), path) == with_path(paths, path),
{
    if !paths.contains(path) {
        assert(paths.push(path)[paths.len() as int] == path);
    }
}

/// A directory that is removed is gone, and the others stay. Adding it first
/// makes no difference.
pub proof fn law_a_removed_path_is_gone(paths: Seq<Seq<char>>, path: Seq<char>)
    ensures
        forall|p: Seq<char>| #[trigger]
            without_path(paths, path).contains(p) <==> paths.contains(p) && p != path,
        without_path(with_path(paths, path), path) == without_path(paths, path),
{
    seqs::lemma_keep_members(paths, other_than(path));
    if !paths.contains(path) {
        assert(paths.push(path).drop_last() == paths);
    }
}

/// A library is shown under its id and its name, as what it holds; one of mixed
/// content is shown as no kind in particular. Without libraries the directories
/// with media are shown by their names, and without these everything is.
pub proof fn law_libraries_are_shown(libraries: Seq<Library>, roots: Seq<RootRow>, i: int)
    ensures
        0 <= i < libraries.len() ==> views_of(libraries, roots).len() == libraries.len()
            && views_of(libraries, roots)[i].0 == libraries[i].wire_id@ && views_of(
            libraries,
            roots,
        )[i].1 == libraries[i].name@ && views_of(libraries, roots)[i].2 == (if
        libraries[i].collection_type@ == "mixed"@ || libraries[i].collection_type@.len() == 0 {
            None
        } else {
            Some(libraries[i].collection_type@)
        }),
        libraries.len() == 0 && 0 <= i < roots.len() ==> views_of(libraries, roots).len()
            == roots.len() && views_of(libraries, roots)[i].0 == roots[i].id@ && (
        path_text::file_name(roots[i].path@) is Some ==> views_of(libraries, roots)[i].1
            == path_text::file_name(roots[i].path@)->0),
        libraries.len() == 0 && roots.len() == 0 ==> views_of(libraries, roots) == seq![
            ("00000000000000000000000000000000"@, "All Media"@, None::<Seq<char>>),
        ],
{
}

/// A folder is described as its library is: by its name, its directory, its
/// kind and its id.
pub proof fn law_folders_are_described(libraries: Seq<Library>, roots: Seq<RootRow>, i: int)
    requires
        0 <= i < libraries.len(),
    ensures
        folders_of(libraries, roots).len() == libraries.len(),
        folders_of(libraries, roots)[i] == (
            libraries[i].name@,
            libraries[i].root_path@,
            libraries[i].collection_type@,
            libraries[i].wire_id@,
        ),
{
}

/// An item's parent is its own where it has one, and else the first directory
/// with media that its file lies below.
pub proof fn law_items_have_parents(own: Option<Seq<char>>, path: Seq<char>, roots: Seq<RootRow>)
    ensures
        own is Some ==> parent_of_item(own, path, roots) == own,
        own is None ==> match parent_of_item(own, path, roots) {
            Some(id) => exists|k: int|
                0 <= k < roots.len() && (#[trigger] roots[k]).id@ == id && path_text::lies_below(
                    path,
                    roots[k].path@,
                ) && forall|j: int|
                    0 <= j < k ==> !path_text::lies_below(path, (#[trigger] roots[j]).path@),
            None => forall|j: int|
                0 <= j < roots.len() ==> !path_text::lies_below(path, (#[trigger] roots[j]).path@),
        },
{
    let wanted = lies_above(path, roots);
    seqs::law_the_first_place_is_first(wanted, 0, roots.len() as int);
    let n: int = match root_above(path, roots) {
        Some(k) => k,
        None => roots.len() as int,
    };
    assert forall|j: int| 0 <= j < n implies !path_text::lies_below(
        path,
        (#[trigger] roots[j]).path@,
    ) by {
        assert(!wanted(j));
    }
    if let Some(k) = root_above(path, roots) {
        assert(wanted(k));
        assert(roots[k].id@ == parent_of_item(None, path, roots)->0);
    }
}

/// A library is found by its name.
pub proof fn law_libraries_are_found_by_name(libraries: Seq<Library>, name: Seq<char>)
    ensures
        match library_named(libraries, name) {
            Some(k) => 0 <= k < libraries.len() && libraries[k].name@ == name,
            None => forall|j: int| 0 <= j < libraries.len() ==> (#[trigger] libraries[j]).name@ != name,
        },
{
    let wanted = has_name(libraries, name);
    seqs::law_the_first_place_is_first(wanted, 0, libraries.len() as int);
    if library_named(libraries, name) is None {
        assert forall|j: int| 0 <= j < libraries.len() implies (#[trigger] libraries[j]).name@
            != name by {
            assert(!wanted(j));
        }
    }
}

/// The directories of a new library are those in the body that are not blank, in
/// their order, and the one in the query only where there are none.
pub proof fn law_directories_are_given(body: Seq<Seq<char>>, query: Option<Seq<char>>, p: Seq<char>)
    ensures
        body.contains(p) && text::trim(p).len() > 0 ==> given_paths(body, query).contains(p),
        (exists|i: int| 0 <= i < body.len() && text::trim(#[trigger] body[i]).len() > 0) && given_paths(
            body,
            query,
        ).contains(p) ==> body.contains(p),
        (forall|i: int| 0 <= i < body.len() ==> text::trim(#[trigger] body[i]).len() == 0)
            && query is Some && text::trim(query->0).len() > 0 ==> given_paths(body, query) == seq![
            query->0,
        ],
        (forall|i: int| 0 <= i < body.len() ==> text::trim(#[trigger] body[i]).len() == 0)
            && query is None ==> given_paths(body, query).len() == 0,
{
    seqs::lemma_keep_members(body, is_filled());
    let kept = seqs::keep(body, is_filled());
    if body.contains(p) && text::trim(p).len() > 0 {
        assert(is_filled()(p));
        assert(kept.contains(p));
        assert(kept.len() > 0);
    }
    if exists|i: int| 0 <= i < body.len() && text::trim(#[trigger] body[i]).len() > 0 {
        let i = choose|i: int| 0 <= i < body.len() && text::trim(#[trigger] body[i]).len() > 0;
        assert(is_filled()(body[i]));
        assert(body.contains(body[i]));
        assert(kept.contains(body[i]));
        assert(kept.len() > 0);
    }
    if forall|i: int| 0 <= i < body.len() ==> text::trim(#[trigger] body[i]).len() == 0 {
        if kept.len() > 0 {
            assert(kept.contains(kept[0]));
            assert(body.contains(kept[0]) && is_filled()(kept[0]));
            let i = choose|i: int| 0 <= i < body.len() && body[i] == kept[0];
            assert(text::trim(body[i]).len() == 0);
        }
    }
}

/// Each directory becomes a library of its own: the first under the name that is
/// given, the others with the directory's own name behind it, and all under the
/// directory's name where none is given.
pub proof fn law_directories_become_libraries(name: Option<Seq<char>>, paths: Seq<Seq<char>>, i: int)
    requires
        0 <= i < paths.len(),
    ensures
        new_libraries(name, paths).len() == paths.len(),
        new_libraries(name, paths)[i].1 == paths[i],
        name is Some && i == 0 ==> new_libraries(name, paths)[i].0 == name->0,
        name is Some && i > 0 && path_text::file_name(paths[i]) is Some ==> new_libraries(
            name,
            paths,
        )[i].0 == name->0 + " ("@ + path_text::file_name(paths[i])->0 + ")"@,
        name is None && path_text::file_name(paths[i]) is Some ==> new_libraries(name, paths)[i].0
            == path_text::file_name(paths[i])->0,
{
}

/// The options of a library are kept, all but where its files lie.
pub proof fn law_options_are_kept(options: Seq<system::Setting>, o: system::Setting)
    ensures
        seqs::keep(options, kept_option()).contains(o) <==> options.contains(o) && o.0
            != "PathInfos"@,
{
    seqs::lemma_keep_members(options, kept_option());
    assert(kept_option()(o) <==> o.0 != "PathInfos"@);
}

/// The picker shows what is asked for and is not hidden, and directories where
/// nothing is asked for, by name.
pub proof fn law_the_picker_shows_what_is_asked_for(
    r: Seq<usize>,
    es: Seq<DirectoryEntry>,
    directories: bool,
    files: bool,
    k: usize,
)
    requires
        sort::ranked(r, es.len() as int, shown_entries(es, directories, files), entry_names(es)),
    ensures
        r.contains(k) ==> k < es.len() && !text::starts_with(es[k as int].name@, "."@),
        k < es.len() && es[k as int].is_dir && !text::starts_with(es[k as int].name@, "."@) ==> (
        r.contains(k) <==> directories || !files),
        k < es.len() && !es[k as int].is_dir && !text::starts_with(es[k as int].name@, "."@) ==> (
        r.contains(k) <==> files),
{
    let wanted = shown_entries(es, directories, files);
    assert(r.contains(k) <==> k < es.len() && wanted(k as int));
}

} // verus!
