//! The subtitle files that were found beside media, kept for as long as the
//! directory of the media does not change.

use vstd::prelude::*;
use vstd::string::*;
use crate::subtitles::{sidecar_views, Sidecar, SidecarKind};
use crate::text::eq_text;

verus! {

/// What was found beside one file, and when its directory had last changed.
struct Finding {
    media_path: String,
    mtime: u64,
    sidecars: Vec<Sidecar>,
}

/// What was found beside the files that were looked at before.
pub struct SidecarCache {
    findings: Vec<Finding>,
}

/// The time of a directory, and the subtitle files around a file in it.
pub type Found = (u64, Seq<(Seq<char>, SidecarKind)>);

/// The findings as a map from the files: of two for one file the later counts.
closed spec fn kept(findings: Seq<Finding>) -> Map<Seq<char>, Found>
    decreases findings.len(),
{
    if findings.len() == 0 {
        Map::empty()
    } else {
        let f = findings.last();
        kept(findings.drop_last()).insert(f.media_path@, (f.mtime, sidecar_views(f.sidecars@)))
    }
}

/// What need not be looked for again: the files that were found when the
/// directory had the time that it has now.
pub open spec fn reused(cache: Map<Seq<char>, Found>, media_path: Seq<char>, mtime: u64) -> Option<
    Seq<(Seq<char>, SidecarKind)>,
> {
    if cache.dom().contains(media_path) && cache[media_path].0 == mtime {
        Some(cache[media_path].1)
    } else {
        None
    }
}

fn copy_sidecars(v: &Vec<Sidecar>) -> (r: Vec<Sidecar>)
    ensures
        sidecar_views(r@) == sidecar_views(v@),
{
    let mut out: Vec<Sidecar> = Vec::new();
    let mut i: usize = 0;
    while i < v.len()
        invariant
            i <= v@.len(),
            sidecar_views(out@) == sidecar_views(v@).take(i as int),
        decreases v@.len() - i,
    {
        let ghost before = out@;
        out.push(Sidecar { path: v[i].path.clone(), kind: v[i].kind });
        i += 1;
        proof {
            let all = sidecar_views(v@);
            assert(sidecar_views(out@) == sidecar_views(before).push(all[i - 1]));
            assert(all.take(i as int) == all.take(i - 1).push(all[i - 1]));
        }
    }
    proof {
        assert(sidecar_views(v@).take(i as int) == sidecar_views(v@));
    }
    out
}

impl SidecarCache {
    /// What is kept for each file.
    pub closed spec fn view(self) -> Map<Seq<char>, Found> {
        kept(self.findings@)
    }

    /// A cache without findings.
    pub fn new() -> (r: Self)
        ensures
            r.view() == Map::<Seq<char>, Found>::empty(),
    {
        SidecarCache { findings: Vec::new() }
    }

    /// The subtitle files around a file, where its directory has not changed
    /// since they were looked for.
    pub fn get(&self, media_path: &str, mtime: u64) -> (r: Option<Vec<Sidecar>>)
        ensures
            match r {
                Some(v) => reused(self.view(), media_path@, mtime) == Some(sidecar_views(v@)),
                None => reused(self.view(), media_path@, mtime) is None,
            },
    {
        let mut n: usize = self.findings.len();
        let ghost all = self.findings@;
        proof {
            assert(all.take(n as int) =~= all);
        }
        while n > 0
            invariant
                n <= all.len(),
                all == self.findings@,
                self.view() == kept(all),
                kept(all).dom().contains(media_path@) == kept(all.take(n as int)).dom().contains(
                    media_path@,
                ),
                kept(all).dom().contains(media_path@) ==> kept(all)[media_path@] == kept(
                    all.take(n as int),
                )[media_path@],
            decreases n,
        {
            proof {
                assert(all.take(n as int).drop_last() =~= all.take(n - 1));
                assert(all.take(n as int).last() == all[n - 1]);
            }
            let f: &Finding = &self.findings[n - 1];
            if eq_text(f.media_path.as_str(), media_path) {
                return if f.mtime == mtime {
                    Some(copy_sidecars(&f.sidecars))
                } else {
                    None
                };
            }
            n -= 1;
        }
        proof {
            assert(all.take(0) =~= Seq::<Finding>::empty());
        }
        None
    }

    /// Keeps what was found around a file, in the place of what was found
    /// before.
    pub fn store(&mut self, media_path: &str, mtime: u64, sidecars: &Vec<Sidecar>)
        ensures
            final(self).view() == old(self).view().insert(
                media_path@,
                (mtime, sidecar_views(sidecars@)),
            ),
    {
        let ghost before = self.findings@;
        let new = Finding {
            media_path: media_path.to_owned(),
            mtime,
            sidecars: copy_sidecars(sidecars),
        };
        let mut n: usize = self.findings.len();
        while n > 0
            invariant
                n <= before.len(),
                before == old(self).findings@,
                self.findings@ == before,
                new.media_path@ == media_path@,
                new.mtime == mtime,
                sidecar_views(new.sidecars@) == sidecar_views(sidecars@),
                forall|k: int|
                    n <= k < before.len() ==> (#[trigger] before[k]).media_path@ != media_path@,
            decreases n,
        {
            n -= 1;
            if eq_text(self.findings[n].media_path.as_str(), media_path) {
                proof {
                    lemma_replaced(before, n as int, new);
                }
                self.findings.set(n, new);
                return;
            }
        }
        self.findings.push(new);
        proof {
            assert(self.findings@.drop_last() =~= before);
        }
    }
}

/// To replace the last finding for a file is to keep something else for it.
proof fn lemma_replaced(findings: Seq<Finding>, at: int, f: Finding)
    requires
        0 <= at < findings.len(),
        findings[at].media_path@ == f.media_path@,
        forall|k: int|
            at < k < findings.len() ==> (#[trigger] findings[k]).media_path@ != f.media_path@,
    ensures
        kept(findings.update(at, f)) == kept(findings).insert(
            f.media_path@,
            (f.mtime, sidecar_views(f.sidecars@)),
        ),
    decreases findings.len(),
{
    let new = findings.update(at, f);
    let front = findings.drop_last();
    let wanted = kept(findings).insert(f.media_path@, (f.mtime, sidecar_views(f.sidecars@)));
    if at == findings.len() - 1 {
        assert(new.drop_last() =~= front);
        assert(kept(new) =~= wanted);
    } else {
        assert forall|k: int| at < k < front.len() implies (#[trigger] front[k]).media_path@
            != f.media_path@ by {
            assert(front[k] == findings[k]);
        }
        lemma_replaced(front, at, f);
        assert(new.drop_last() =~= front.update(at, f));
        assert(findings[findings.len() - 1].media_path@ != f.media_path@);
        assert(kept(new) =~= wanted);
    }
}

// ----------------------------------------------------------------------- laws

/// What was found around a file is used again exactly as long as its directory
/// keeps the time it had, and says nothing of the other files.
pub proof fn law_findings_last_while_the_directory_does(
    cache: Map<Seq<char>, Found>,
    media_path: Seq<char>,
    found: Found,
    other: Seq<char>,
    now: u64,
)
    requires
        other != media_path,
    ensures
        reused(cache.insert(media_path, found), media_path, now) == (if now == found.0 {
            Some(found.1)
        } else {
            None
        }),
        reused(cache.insert(media_path, found), other, now) == reused(cache, other, now),
{
}

} // verus!
