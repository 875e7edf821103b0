//! Decisions of the remote-listing flow: folding pages of releases into
//! one listing, the paging window of the selection menu, its lines, and
//! what a selection on it means. The menu itself and the transport live
//! outside; they feed plain values in and carry the decisions out.

use crate::store::VersionStore;
use vstd::prelude::*;

verus! {

/// One release as the remote listing reports it.
pub struct Release {
    pub tag_name: String,
}

/// The tags of a page of releases, in order.
pub open spec fn tags_of(page: Seq<Release>) -> Seq<Seq<char>> {
    page.map(|i: int, r: Release| r.tag_name@)
}

/// Fold one page of the remote listing into the collected tags. The listing
/// goes on while pages keep coming back non-empty.
pub fn collect_release_tags(acc: &mut Vec<String>, page: &Vec<Release>) -> (more: bool)
    ensures
        final(acc).deep_view() == old(acc).deep_view() + tags_of(page@),
        more == (page@.len() > 0),
{
    let more = page.len() > 0;
    let ghost orig = acc.deep_view();
    proof {
        assert(acc.deep_view() =~= orig + tags_of(page@.subrange(0, 0)));
    }
    let mut k: usize = 0;
    while k < page.len()
        invariant
            0 <= k <= page.len(),
            acc.deep_view() == orig + tags_of(page@.subrange(0, k as int)),
        decreases page.len() - k,
    {
        let ghost pre = acc.deep_view();
        let tag = page[k].tag_name.clone();
        acc.push(tag);
        proof {
            assert(acc.deep_view() =~= pre.push(page@[k as int].tag_name@));
            assert(orig + tags_of(page@.subrange(0, k as int + 1)) =~= pre.push(
                page@[k as int].tag_name@,
            ));
        }
        k = k + 1;
    }
    proof {
        assert(page@.subrange(0, page@.len() as int) =~= page@);
    }
    more
}

/// How many pages a listing of `n` items fills, `page_size` at a time; the
/// last page may be short.
pub fn total_pages(n: usize, page_size: usize) -> (r: usize)
    requires
        page_size > 0,
        n + page_size <= usize::MAX,
    ensures
        r == ((n + page_size - 1) as int) / (page_size as int),
{
    (n + page_size - 1) / page_size
}

/// The window of the listing shown on one page: its start index and its
/// end, cut short on the last page.
pub fn page_bounds(n: usize, page: usize, page_size: usize) -> (r: (usize, usize))
    requires
        page_size > 0,
        page * page_size <= n,
    ensures
        r.0 == page * page_size,
        r.1 == (if page * page_size + page_size <= n {
            page * page_size + page_size
        } else {
            n as int
        }),
        r.0 <= r.1 <= n,
{
    let start = page * page_size;
    let end = if n - start < page_size {
        n
    } else {
        start + page_size
    };
    (start, end)
}

/// The menu lines for the window [start, end) of the listing: each version,
/// marked when the store already records it.
pub fn page_items(versions: &Vec<String>, installed: &VersionStore, start: usize, end: usize) -> (r:
    Vec<String>)
    requires
        start <= end <= versions@.len(),
    ensures
        r@.len() == end - start,
        forall|k: int|
            0 <= k < r@.len() ==> #[trigger] r.deep_view()[k] == (if installed@.contains(
                versions.deep_view()[start + k],
            ) {
                versions.deep_view()[start + k] + " (installed)"@
            } else {
                versions.deep_view()[start + k]
            }),
{
    let mut out: Vec<String> = Vec::new();
    let mut k: usize = start;
    while k < end
        invariant
            start <= k <= end,
            end <= versions@.len(),
            out@.len() == k - start,
            forall|m: int|
                0 <= m < out@.len() ==> #[trigger] out.deep_view()[m] == (if installed@.contains(
                    versions.deep_view()[start + m],
                ) {
                    versions.deep_view()[start + m] + " (installed)"@
                } else {
                    versions.deep_view()[start + m]
                }),
        decreases end - k,
    {
        let v = &versions[k];
        let ghost pre = out.deep_view();
        let ghost item = versions.deep_view()[k as int];
        proof {
            assert(item == versions@[k as int]@);
        }
        let inst = installed.contains(v.as_str());
        if inst {
            let mut line = v.clone();
            line.append(" (installed)");
            proof {
                assert(line@ == item + " (installed)"@);
            }
            out.push(line);
        } else {
            out.push(v.clone());
        }
        proof {
            assert(out.deep_view() =~= pre.push(
                if installed@.contains(item) {
                    item + " (installed)"@
                } else {
                    item
                },
            ));
        }
        k = k + 1;
    }
    out
}

/// What a menu selection on one page means. After the page's versions the
/// menu offers a move to the next page (absent on the last page) and then
/// one to the previous page (absent on the first).
pub enum PageNav {
    /// The version at this index of the page.
    Chosen(usize),
    NextPage,
    PrevPage,
    /// The selection points past the menu.
    OutOfRange,
}

pub fn page_selection(selection: usize, shown: usize, has_next: bool, has_prev: bool) -> (r:
    PageNav)
    requires
        shown < usize::MAX,
    ensures
        selection < shown ==> r == PageNav::Chosen(selection),
        selection == shown && has_next ==> r == PageNav::NextPage,
        selection == shown && !has_next && has_prev ==> r == PageNav::PrevPage,
        selection == shown + 1 && has_next && has_prev ==> r == PageNav::PrevPage,
        selection == shown && !has_next && !has_prev ==> r == PageNav::OutOfRange,
        selection == shown + 1 && !(has_next && has_prev) ==> r == PageNav::OutOfRange,
        selection > shown + 1 ==> r == PageNav::OutOfRange,
{
    if selection < shown {
        PageNav::Chosen(selection)
    } else if selection == shown && has_next {
        PageNav::NextPage
    } else if (selection == shown && !has_next && has_prev) || (selection == shown + 1 && has_next
        && has_prev) {
        PageNav::PrevPage
    } else {
        PageNav::OutOfRange
    }
}

/// What to do with a selected version that is already installed, by menu
/// position: pin it for the directory, make it the global default, or
/// leave things as they are.
pub enum InstalledAction {
    SetLocal,
    SetGlobal,
    DoNothing,
}

pub fn installed_version_action(selection: usize) -> (r: Option<InstalledAction>)
    ensures
        selection == 0 ==> r == Some(InstalledAction::SetLocal),
        selection == 1 ==> r == Some(InstalledAction::SetGlobal),
        selection == 2 ==> r == Some(InstalledAction::DoNothing),
        selection > 2 ==> r is None,
{
    if selection == 0 {
        Some(InstalledAction::SetLocal)
    } else if selection == 1 {
        Some(InstalledAction::SetGlobal)
    } else if selection == 2 {
        Some(InstalledAction::DoNothing)
    } else {
        None
    }
}

/// What to do with a selected version that is not installed: install it —
/// and then possibly pin it for the directory — or nothing, from the two
/// confirmations the flow asks for.
pub enum NotInstalledAction {
    Install { set_local: bool },
    DoNothing,
}

pub fn not_installed_version_action(confirm_install: bool, confirm_set_local: bool) -> (r:
    NotInstalledAction)
    ensures
        confirm_install ==> r == (NotInstalledAction::Install { set_local: confirm_set_local }),
        !confirm_install ==> r == NotInstalledAction::DoNothing,
{
    if confirm_install {
        NotInstalledAction::Install { set_local: confirm_set_local }
    } else {
        NotInstalledAction::DoNothing
    }
}

} // verus!
