//! Gathering loose manga archives into one folder per title: which archives
//! go together, in which order the folders are handled, and in which order
//! each folder's archives are copied.

use vstd::prelude::*;
use vstd::string::*;
use crate::natural::{
    lemma_lex_antisymmetric, lemma_lex_transitive, lex_order, lex_order_of, naturally_sorted,
    ranked_as, sort_names, sort_naturally, NaturallyNamed,
};
use crate::launcher::{cover_file_name, cover_name};
use crate::text::chars_of;

verus! {

/// A loose archive and the title folder it goes to.
pub struct LocalMangaArchivePlan {
    /// Which source archive this is, as the caller numbers them.
    pub source: usize,
    /// The archive's file name, which it keeps in the folder.
    pub archive_name: String,
    /// The name of the title folder.
    pub folder_name: String,
}

impl NaturallyNamed for LocalMangaArchivePlan {
    open spec fn sort_name(&self) -> Seq<char> {
        self.archive_name@
    }

    fn name_str(&self) -> (r: &str) {
        self.archive_name.as_str()
    }
}

/// The archives that go to one title folder.
pub struct LocalMangaFolderPlan {
    pub folder_name: String,
    pub archives: Vec<LocalMangaArchivePlan>,
}

/// The plans whose title folder is `folder`.
pub open spec fn in_folder(folder: Seq<char>) -> spec_fn(LocalMangaArchivePlan) -> bool {
    |p: LocalMangaArchivePlan| p.folder_name@ == folder
}

/// Each folder's name comes before the next one's in code point order.
pub open spec fn folders_increasing(groups: Seq<LocalMangaFolderPlan>) -> bool {
    forall|i: int, j: int|
        0 <= i < j < groups.len() ==> lex_order(#[trigger] groups[i].folder_name@, #[trigger] groups[j].folder_name@)
            < 0
}

/// Some folder has the name `folder`.
pub open spec fn has_folder(groups: Seq<LocalMangaFolderPlan>, folder: Seq<char>) -> bool {
    exists|i: int| 0 <= i < groups.len() && #[trigger] groups[i].folder_name@ == folder
}

/// What gathering the plans in `plans` gives before any folder is sorted:
/// increasing folders, each holding exactly the plans for it in their order,
/// and a folder for every plan.
pub open spec fn gathered(groups: Seq<LocalMangaFolderPlan>, plans: Seq<LocalMangaArchivePlan>) -> bool {
    &&& folders_increasing(groups)
    &&& forall|i: int|
        0 <= i < groups.len() ==> (#[trigger] groups[i]).archives@.len() > 0 && groups[i].archives@ == plans.filter(
            in_folder(groups[i].folder_name@),
        )
    &&& forall|j: int| 0 <= j < plans.len() ==> has_folder(groups, #[trigger] plans[j].folder_name@)
}

/// No folder in increasing folders is named `f` when `f` comes after every
/// folder before `g` and before the folder at `g`.
proof fn lemma_no_folder_named(groups: Seq<LocalMangaFolderPlan>, f: Seq<char>, g: int)
    requires
        0 <= g <= groups.len(),
        folders_increasing(groups),
        forall|j: int| 0 <= j < g ==> lex_order(f, #[trigger] groups[j].folder_name@) > 0,
        g < groups.len() ==> lex_order(f, groups[g].folder_name@) < 0,
    ensures
        !has_folder(groups, f),
        forall|j: int| g < j < groups.len() ==> lex_order(f, #[trigger] groups[j].folder_name@) < 0,
{
    assert forall|j: int| g < j < groups.len() implies lex_order(f, #[trigger] groups[j].folder_name@) < 0 by {
        assert(lex_order(groups[g].folder_name@, groups[j].folder_name@) < 0);
        lemma_lex_transitive(f, groups[g].folder_name@, groups[j].folder_name@);
    }
    assert forall|i: int| 0 <= i < groups.len() implies #[trigger] groups[i].folder_name@ != f by {
        lemma_lex_antisymmetric(f, groups[i].folder_name@);
    }
}

/// Inserting a folder keeps every folder name that was there.
proof fn lemma_has_folder_insert(groups: Seq<LocalMangaFolderPlan>, g: int, n: LocalMangaFolderPlan, h: Seq<char>)
    requires
        0 <= g <= groups.len(),
        has_folder(groups, h),
    ensures
        has_folder(groups.insert(g, n), h),
{
    let i = choose|i: int| 0 <= i < groups.len() && #[trigger] groups[i].folder_name@ == h;
    if i < g {
        assert(groups.insert(g, n)[i] == groups[i]);
    } else {
        assert(groups.insert(g, n)[i + 1] == groups[i]);
    }
}

/// Whether two strings are equal.
fn same_text(a: &str, b: &str) -> (r: bool)
    ensures
        r == (a@ == b@),
{
    let x = chars_of(a);
    let y = chars_of(b);
    let o = lex_order_of(&x, &y);
    proof {
        lemma_lex_antisymmetric(a@, b@);
    }
    o == 0
}

/// Puts each plan into the folder it names, keeping the plans' order within
/// a folder and the folders in increasing order of their names.
fn gather_by_folder(plans: Vec<LocalMangaArchivePlan>) -> (groups: Vec<LocalMangaFolderPlan>)
    ensures
        gathered(groups@, plans@),
{
    let ghost orig = plans@;
    let ghost mut done: int = 0;
    let mut rest = plans;
    let mut groups: Vec<LocalMangaFolderPlan> = Vec::new();
    while rest.len() > 0
        invariant
            0 <= done <= orig.len(),
            rest@ == orig.subrange(done, orig.len() as int),
            gathered(groups@, orig.subrange(0, done)),
        decreases rest.len(),
    {
        let x = rest.remove(0);
        let ghost prev = orig.subrange(0, done);
        let ghost next = orig.subrange(0, done + 1);
        proof {
            assert(x == orig[done]);
            assert(rest@ =~= orig.subrange(done + 1, orig.len() as int));
            assert(next =~= prev.push(x));
        }
        let xf = chars_of(x.folder_name.as_str());
        let mut g: usize = 0;
        while g < groups.len()
            invariant
                g <= groups@.len(),
                xf@ == x.folder_name@,
                forall|j: int| 0 <= j < g ==> lex_order(x.folder_name@, #[trigger] groups@[j].folder_name@) > 0,
            ensures
                g <= groups@.len(),
                forall|j: int| 0 <= j < g ==> lex_order(x.folder_name@, #[trigger] groups@[j].folder_name@) > 0,
                g < groups@.len() ==> lex_order(x.folder_name@, groups@[g as int].folder_name@) <= 0,
            decreases groups.len() - g,
        {
            let gf = chars_of(groups[g].folder_name.as_str());
            if lex_order_of(&xf, &gf) <= 0 {
                break;
            }
            g += 1;
        }
        let ghost before = groups@;
        let ghost f = x.folder_name@;
        if g < groups.len() && same_text(groups[g].folder_name.as_str(), x.folder_name.as_str()) {
            let mut grp = groups.remove(g);
            grp.archives.push(x);
            groups.insert(g, grp);
            proof {
                assert(groups@ =~= before.update(g as int, grp));
                assert forall|i: int| 0 <= i < groups@.len() implies (#[trigger] groups@[i]).archives@.len() > 0
                    && groups@[i].archives@ == next.filter(in_folder(groups@[i].folder_name@)) by {
                    prev.lemma_filter_push(x, in_folder(groups@[i].folder_name@));
                    if i != g {
                        if i < g {
                            assert(lex_order(before[i].folder_name@, before[g as int].folder_name@) < 0);
                        } else {
                            assert(lex_order(before[g as int].folder_name@, before[i].folder_name@) < 0);
                        }
                        lemma_lex_antisymmetric(before[i].folder_name@, before[g as int].folder_name@);
                    }
                }
                assert forall|j: int| 0 <= j < next.len() implies has_folder(groups@, #[trigger] next[j].folder_name@) by {
                    if j < done {
                        assert(next[j] == prev[j]);
                        let i = choose|i: int| 0 <= i < before.len() && #[trigger] before[i].folder_name@ == prev[j].folder_name@;
                        assert(groups@[i].folder_name@ == before[i].folder_name@);
                    } else {
                        assert(groups@[g as int].folder_name@ == f);
                    }
                }
            }
        } else {
            let name = x.folder_name.clone();
            let mut archives: Vec<LocalMangaArchivePlan> = Vec::new();
            archives.push(x);
            let grp = LocalMangaFolderPlan { folder_name: name, archives };
            proof {
                if g < before.len() {
                    lemma_lex_antisymmetric(f, before[g as int].folder_name@);
                }
                lemma_no_folder_named(before, f, g as int);
                assert forall|j: int| 0 <= j < prev.len() implies !in_folder(f)(#[trigger] prev[j]) by {
                    assert(has_folder(before, prev[j].folder_name@));
                }
                assert(prev.all(|p: LocalMangaArchivePlan| !in_folder(f)(p)));
                prev.lemma_all_neg_filter_empty(in_folder(f));
                prev.lemma_filter_push(x, in_folder(f));
                assert(next.filter(in_folder(f)) =~= archives@);
            }
            groups.insert(g, grp);
            proof {
                let ins = before.insert(g as int, grp);
                assert(groups@ =~= ins);
                assert forall|a: int, b: int| 0 <= a < b < ins.len() implies lex_order(
                    #[trigger] ins[a].folder_name@,
                    #[trigger] ins[b].folder_name@,
                ) < 0 by {
                    if b < g {
                        assert(ins[a] == before[a] && ins[b] == before[b]);
                    } else if b == g {
                        assert(ins[a] == before[a]);
                        lemma_lex_antisymmetric(f, before[a].folder_name@);
                    } else if a == g {
                        assert(ins[b] == before[b - 1]);
                    } else if a < g {
                        assert(ins[a] == before[a] && ins[b] == before[b - 1]);
                    } else {
                        assert(ins[a] == before[a - 1] && ins[b] == before[b - 1]);
                    }
                }
                assert forall|i: int| 0 <= i < ins.len() implies (#[trigger] ins[i]).archives@.len() > 0
                    && ins[i].archives@ == next.filter(in_folder(ins[i].folder_name@)) by {
                    if i != g {
                        let k = if i < g { i } else { i - 1 };
                        assert(ins[i] == before[k]);
                        assert(before[k].folder_name@ != f);
                        prev.lemma_filter_push(x, in_folder(before[k].folder_name@));
                    }
                }
                assert forall|j: int| 0 <= j < next.len() implies has_folder(ins, #[trigger] next[j].folder_name@) by {
                    if j < done {
                        assert(next[j] == prev[j]);
                        lemma_has_folder_insert(before, g as int, grp, prev[j].folder_name@);
                    } else {
                        assert(ins[g as int].folder_name@ == f);
                    }
                }
            }
        }
        proof {
            done = done + 1;
        }
    }
    assert(orig.subrange(0, done) =~= orig);
    groups
}

/// Gathers archive plans into one plan per title folder: the folders in
/// increasing code point order of their names, none empty, a folder for every
/// plan, and each folder holding exactly the plans for it, sorted in natural
/// order of their archive names; plans whose names rank equal keep the order
/// they came in.
pub fn group_local_manga_archive_plans(plans: Vec<LocalMangaArchivePlan>) -> (groups: Vec<LocalMangaFolderPlan>)
    ensures
        folders_increasing(groups@),
        forall|j: int| 0 <= j < plans@.len() ==> has_folder(groups@, #[trigger] plans@[j].folder_name@),
        forall|i: int|
            0 <= i < groups@.len() ==> {
                let g = #[trigger] groups@[i];
                let mine = plans@.filter(in_folder(g.folder_name@));
                &&& g.archives@.len() > 0
                &&& g.archives@.to_multiset() == mine.to_multiset()
                &&& naturally_sorted(sort_names(g.archives@))
                &&& forall|key: Seq<char>| #[trigger] g.archives@.filter(ranked_as::<LocalMangaArchivePlan>(key))
                    == mine.filter(ranked_as::<LocalMangaArchivePlan>(key))
            },
{
    let ghost all = plans@;
    let gathered_groups = gather_by_folder(plans);
    let ghost gs = gathered_groups@;
    let mut rest = gathered_groups;
    let mut out: Vec<LocalMangaFolderPlan> = Vec::new();
    while rest.len() > 0
        invariant
            gathered(gs, all),
            out@.len() + rest@.len() == gs.len(),
            rest@ == gs.subrange(out@.len() as int, gs.len() as int),
            forall|i: int|
                0 <= i < out@.len() ==> {
                    let g = #[trigger] out@[i];
                    &&& g.folder_name@ == gs[i].folder_name@
                    &&& g.archives@.len() > 0
                    &&& g.archives@.to_multiset() == gs[i].archives@.to_multiset()
                    &&& naturally_sorted(sort_names(g.archives@))
                    &&& forall|key: Seq<char>| #[trigger] g.archives@.filter(ranked_as::<LocalMangaArchivePlan>(key))
                        == gs[i].archives@.filter(ranked_as::<LocalMangaArchivePlan>(key))
                },
        decreases rest.len(),
    {
        let ghost n = out@.len() as int;
        let grp = rest.remove(0);
        proof {
            assert(grp == gs[n]);
            assert(rest@ =~= gs.subrange(n + 1, gs.len() as int));
        }
        let LocalMangaFolderPlan { folder_name, archives } = grp;
        let sorted = sort_naturally(archives);
        proof {
            vstd::seq_lib::to_multiset_len(sorted@);
            vstd::seq_lib::to_multiset_len(gs[n].archives@);
        }
        out.push(LocalMangaFolderPlan { folder_name, archives: sorted });
    }
    proof {
        assert forall|i: int| 0 <= i < out@.len() implies out@[i].folder_name@ == gs[i].folder_name@ by {
        }
        assert forall|j: int| 0 <= j < all.len() implies has_folder(out@, #[trigger] all[j].folder_name@) by {
            assert(has_folder(gs, all[j].folder_name@));
            let i = choose|i: int| 0 <= i < gs.len() && #[trigger] gs[i].folder_name@ == all[j].folder_name@;
            assert(out@[i].folder_name@ == gs[i].folder_name@);
        }
        assert forall|a: int, b: int| 0 <= a < b < out@.len() implies lex_order(
            #[trigger] out@[a].folder_name@,
            #[trigger] out@[b].folder_name@,
        ) < 0 by {
            assert(out@[a].folder_name@ == gs[a].folder_name@);
            assert(out@[b].folder_name@ == gs[b].folder_name@);
        }
    }
    out
}

/// Whether a title folder must be refreshed. `archives_current` says, of
/// each archive planned for the folder, whether the folder already holds an
/// identical copy of it. The folder must be refreshed when some archive is
/// missing or differs, or, as soon as any archive is planned for it, when its
/// file map is stale or it has no cover.
pub fn local_manga_folder_needs_refresh(archives_current: &Vec<bool>, filemap_stale: bool, has_cover: bool) -> (r: bool)
    ensures
        r == exists|i: int| 0 <= i < archives_current@.len() && (!#[trigger] archives_current@[i] || filemap_stale || !has_cover),
{
    let mut i: usize = 0;
    while i < archives_current.len()
        invariant
            i <= archives_current@.len(),
            forall|j: int| 0 <= j < i ==> #[trigger] archives_current@[j] && !filemap_stale && has_cover,
        decreases archives_current.len() - i,
    {
        if !archives_current[i] || filemap_stale || !has_cover {
            return true;
        }
        i += 1;
    }
    false
}

/// What a folder refresh reads from one archive of the folder: its name,
/// its image pages in page order, and whether it holds a `ComicInfo.xml`.
pub struct ArchiveContents {
    pub archive_name: String,
    pub pages: Vec<String>,
    pub has_comic_info: bool,
}

/// What a folder refresh writes, from the folder's archives in order: the
/// cover (archive index, page entry, cover file name), the archive whose
/// `ComicInfo.xml` is copied, and the archives that become chapters.
pub struct FolderRefreshPlan {
    pub cover: Option<(usize, String, String)>,
    pub comic_info: Option<usize>,
    pub chapters: Vec<usize>,
}

/// The archive has pages.
pub open spec fn has_pages(a: ArchiveContents) -> bool {
    a.pages@.len() > 0
}

/// The archive has pages and a `ComicInfo.xml`.
pub open spec fn gives_comic_info(a: ArchiveContents) -> bool {
    a.pages@.len() > 0 && a.has_comic_info
}

/// What a folder refresh writes: archives without pages are skipped; the
/// first archive with pages gives the cover, named after its first page; the
/// first archive with pages and a `ComicInfo.xml` gives that file; every
/// archive with pages, in order, becomes a chapter.
pub fn local_manga_folder_refresh_plan(archives: &Vec<ArchiveContents>) -> (r: FolderRefreshPlan)
    ensures
        match r.cover {
            Some((i, entry, name)) => {
                &&& i < archives@.len()
                &&& has_pages(archives@[i as int])
                &&& forall|j: int| 0 <= j < i ==> !has_pages(#[trigger] archives@[j])
                &&& entry@ == archives@[i as int].pages@[0]@
                &&& name@ == cover_name(entry@)
            },
            None => forall|j: int| 0 <= j < archives@.len() ==> !has_pages(#[trigger] archives@[j]),
        },
        match r.comic_info {
            Some(i) => {
                &&& i < archives@.len()
                &&& gives_comic_info(archives@[i as int])
                &&& forall|j: int| 0 <= j < i ==> !gives_comic_info(#[trigger] archives@[j])
            },
            None => forall|j: int| 0 <= j < archives@.len() ==> !gives_comic_info(#[trigger] archives@[j]),
        },
        forall|k: int|
            0 <= k < r.chapters@.len() ==> (#[trigger] r.chapters@[k]) < archives@.len() && has_pages(
                archives@[r.chapters@[k] as int],
            ),
        forall|a: int, b: int| 0 <= a < b < r.chapters@.len() ==> r.chapters@[a] < r.chapters@[b],
        forall|j: int|
            0 <= j < archives@.len() && has_pages(#[trigger] archives@[j]) ==> exists|k: int|
                0 <= k < r.chapters@.len() && r.chapters@[k] == j,
{
    let mut cover: Option<(usize, String, String)> = None;
    let mut comic_info: Option<usize> = None;
    let mut chapters: Vec<usize> = Vec::new();
    let mut i: usize = 0;
    while i < archives.len()
        invariant
            i <= archives@.len(),
            match cover {
                Some((c, entry, name)) => {
                    &&& c < i
                    &&& has_pages(archives@[c as int])
                    &&& forall|j: int| 0 <= j < c ==> !has_pages(#[trigger] archives@[j])
                    &&& entry@ == archives@[c as int].pages@[0]@
                    &&& name@ == cover_name(entry@)
                },
                None => forall|j: int| 0 <= j < i ==> !has_pages(#[trigger] archives@[j]),
            },
            match comic_info {
                Some(c) => {
                    &&& c < i
                    &&& gives_comic_info(archives@[c as int])
                    &&& forall|j: int| 0 <= j < c ==> !gives_comic_info(#[trigger] archives@[j])
                },
                None => forall|j: int| 0 <= j < i ==> !gives_comic_info(#[trigger] archives@[j]),
            },
            forall|k: int|
                0 <= k < chapters@.len() ==> (#[trigger] chapters@[k]) < i && has_pages(
                    archives@[chapters@[k] as int],
                ),
            forall|a: int, b: int| 0 <= a < b < chapters@.len() ==> chapters@[a] < chapters@[b],
            forall|j: int|
                0 <= j < i && has_pages(#[trigger] archives@[j]) ==> exists|k: int|
                    0 <= k < chapters@.len() && chapters@[k] == j,
        decreases archives.len() - i,
    {
        let a = &archives[i];
        if a.pages.len() > 0 {
            if cover.is_none() {
                let entry = a.pages[0].clone();
                let name = cover_file_name(entry.as_str());
                cover = Some((i, entry, name));
            }
            if comic_info.is_none() && a.has_comic_info {
                comic_info = Some(i);
            }
            let ghost before = chapters@;
            chapters.push(i);
            assert(chapters@[before.len() as int] == i);
            assert forall|j: int| 0 <= j < i + 1 && has_pages(#[trigger] archives@[j]) implies exists|k: int|
                0 <= k < chapters@.len() && chapters@[k] == j by {
                if j < i {
                    let k = choose|k: int| 0 <= k < before.len() && before[k] == j;
                    assert(chapters@[k] == before[k]);
                } else {
                    assert(chapters@[before.len() as int] == j);
                }
            }
        }
        i += 1;
    }
    let r = FolderRefreshPlan { cover, comic_info, chapters };
    assert forall|j: int| 0 <= j < archives@.len() && has_pages(#[trigger] archives@[j]) implies exists|k: int|
        0 <= k < r.chapters@.len() && r.chapters@[k] == j by {
        let k = choose|k: int| 0 <= k < chapters@.len() && chapters@[k] == j;
        assert(r.chapters@[k] == j);
    }
    r
}


/// What became of one title folder of the plan.
#[derive(Clone, Copy, Debug, PartialEq, Eq)]
pub enum LocalMangaFolderOutcome {
    /// The folder was already current; nothing was touched.
    UpToDate,
    /// The folder was refreshed after this many of its archives were copied.
    Refreshed(usize),
    /// Creating, copying or refreshing failed; the folder was skipped.
    Failed,
}

/// One title folder of the plan: how many archives it holds and what became of it.
#[derive(Clone, Copy, Debug, PartialEq, Eq)]
pub struct LocalMangaFolderResult {
    pub archives: usize,
    pub outcome: LocalMangaFolderOutcome,
}

/// The counts that a run over a directory of loose archives reports.
#[derive(Clone, Copy, Debug, PartialEq, Eq)]
pub struct LocalMangaArchiveShimSummary {
    pub scanned_archives: usize,
    pub planned_archives: usize,
    pub planned_folders: usize,
    pub copied_archives: usize,
    pub refreshed_folders: usize,
    pub skipped_archives: usize,
}

/// The archives copied into a folder: those of a refreshed folder, else none.
pub open spec fn copied_in(f: LocalMangaFolderResult) -> nat {
    match f.outcome {
        LocalMangaFolderOutcome::Refreshed(c) => c as nat,
        _ => 0,
    }
}

/// All archives of the folders.
pub open spec fn archives_in(folders: Seq<LocalMangaFolderResult>) -> nat
    decreases folders.len(),
{
    if folders.len() == 0 {
        0
    } else {
        archives_in(folders.drop_last()) + folders.last().archives as nat
    }
}

/// All archives copied into the folders.
pub open spec fn archives_copied(folders: Seq<LocalMangaFolderResult>) -> nat
    decreases folders.len(),
{
    if folders.len() == 0 {
        0
    } else {
        archives_copied(folders.drop_last()) + copied_in(folders.last())
    }
}

/// The folders that were refreshed.
pub open spec fn folders_refreshed(folders: Seq<LocalMangaFolderResult>) -> nat
    decreases folders.len(),
{
    if folders.len() == 0 {
        0
    } else {
        folders_refreshed(folders.drop_last()) + if folders.last().outcome is Refreshed {
            1nat
        } else {
            0nat
        }
    }
}

/// The archives of the folders that were not refreshed: those already
/// current and those of folders that failed.
pub open spec fn archives_left(folders: Seq<LocalMangaFolderResult>) -> nat
    decreases folders.len(),
{
    if folders.len() == 0 {
        0
    } else {
        archives_left(folders.drop_last()) + if folders.last().outcome is Refreshed {
            0nat
        } else {
            folders.last().archives as nat
        }
    }
}

/// No folder reports more copied archives than it holds.
pub open spec fn copies_within_folders(folders: Seq<LocalMangaFolderResult>) -> bool {
    forall|i: int| 0 <= i < folders.len() ==> copied_in(#[trigger] folders[i]) <= folders[i].archives
}

proof fn lemma_folder_counts_bounded(folders: Seq<LocalMangaFolderResult>)
    requires
        copies_within_folders(folders),
    ensures
        archives_copied(folders) + archives_left(folders) <= archives_in(folders),
        folders_refreshed(folders) <= folders.len(),
    decreases folders.len(),
{
    if folders.len() > 0 {
        let d = folders.drop_last();
        assert forall|i: int| 0 <= i < d.len() implies copied_in(#[trigger] d[i]) <= d[i].archives by {
            assert(d[i] == folders[i]);
        }
        lemma_folder_counts_bounded(d);
        assert(copied_in(folders[folders.len() - 1]) <= folders[folders.len() - 1].archives);
    }
}

proof fn lemma_archives_in_prefix(folders: Seq<LocalMangaFolderResult>, n: int)
    requires
        0 <= n <= folders.len(),
    ensures
        archives_in(folders.take(n)) <= archives_in(folders),
    decreases folders.len(),
{
    if n < folders.len() {
        let d = folders.drop_last();
        assert(d.take(n) =~= folders.take(n));
        lemma_archives_in_prefix(d, n);
    } else {
        assert(folders.take(n) =~= folders);
    }
}

/// The counts of a run: `scanned` archives found, `planned` of them planned
/// (the others could not be read), then one result per title folder. An
/// archive is skipped when it could not be planned, when its folder was
/// already current, or when its folder failed.
pub fn local_manga_shim_summary(
    scanned: usize,
    planned: usize,
    folders: &Vec<LocalMangaFolderResult>,
) -> (r: LocalMangaArchiveShimSummary)
    requires
        planned <= scanned,
        archives_in(folders@) == planned,
        copies_within_folders(folders@),
    ensures
        r.scanned_archives == scanned,
        r.planned_archives == planned,
        r.planned_folders == folders@.len(),
        r.copied_archives == archives_copied(folders@),
        r.refreshed_folders == folders_refreshed(folders@),
        r.skipped_archives == scanned - planned + archives_left(folders@),
{
    let mut copied: usize = 0;
    let mut refreshed: usize = 0;
    let mut skipped: usize = scanned - planned;
    let mut i: usize = 0;
    while i < folders.len()
        invariant
            i <= folders@.len(),
            planned <= scanned,
            archives_in(folders@) == planned,
            copies_within_folders(folders@),
            copied == archives_copied(folders@.take(i as int)),
            refreshed == folders_refreshed(folders@.take(i as int)),
            skipped == scanned - planned + archives_left(folders@.take(i as int)),
        decreases folders.len() - i,
    {
        let ghost before = folders@.take(i as int);
        let ghost after = folders@.take(i + 1);
        proof {
            assert(after.drop_last() =~= before);
            assert(after.last() == folders@[i as int]);
            assert(copies_within_folders(after)) by {
                assert forall|k: int| 0 <= k < after.len() implies copied_in(#[trigger] after[k])
                    <= after[k].archives by {
                    assert(after[k] == folders@[k]);
                }
            }
            lemma_folder_counts_bounded(after);
            lemma_archives_in_prefix(folders@, i + 1);
        }
        let f = folders[i];
        match f.outcome {
            LocalMangaFolderOutcome::Refreshed(c) => {
                copied = copied + c;
                refreshed = refreshed + 1;
            },
            _ => {
                skipped = skipped + f.archives;
            },
        }
        i += 1;
    }
    assert(folders@.take(folders@.len() as int) =~= folders@);
    LocalMangaArchiveShimSummary {
        scanned_archives: scanned,
        planned_archives: planned,
        planned_folders: folders.len(),
        copied_archives: copied,
        refreshed_folders: refreshed,
        skipped_archives: skipped,
    }
}

} // verus!
