//! What selecting, naming and downloading amount to, row by row.

use crate::gui::app::{auto_name_spec, can_download_spec, check_spec, download_spec};
use crate::gui::app::{event_spec, events_spec, named, selected_bytes, sub_spec, with_check};
use crate::gui::app::AppModel;
use crate::gui::event::{hms_spec, EvModel};
use crate::gui::rows::{checked_in, checked_of, first_checked, newest_in, newest_of, sizes};
use crate::gui::rows::{any_checked, offers_total, GroupUiModel, RowModel};
use crate::ngx::feature::streamline_dir;
use crate::ngx::offer::{GroupModel, OfferModel};
use crate::ngx::version::version_spec;
use crate::number::two_digits;
use crate::text::{is_white, law_trim, law_trim_slashes, trim_spec};
use vstd::prelude::*;

verus! {

// ---------------------------------------------------------------------------
// Which rows are selected
// ---------------------------------------------------------------------------

/// There is a row `at.1` in group `at.0`, and it is checked.
pub open spec fn checked_at(groups: Seq<GroupUiModel>, at: (int, int)) -> bool {
    &&& 0 <= at.0 < groups.len()
    &&& 0 <= at.1 < groups[at.0].rows.len()
    &&& groups[at.0].rows[at.1].checked
}

/// The row `a` stands above the row `b`.
pub open spec fn above(a: (int, int), b: (int, int)) -> bool {
    a.0 < b.0 || (a.0 == b.0 && a.1 < b.1)
}

/// `at` are the checked rows, all of them, each once, from top to bottom.
pub open spec fn checked_rows(groups: Seq<GroupUiModel>, at: Seq<(int, int)>) -> bool {
    &&& forall|k: int| 0 <= k < at.len() ==> checked_at(groups, #[trigger] at[k])
    &&& forall|j: int, k: int| 0 <= j < k < at.len() ==> above(#[trigger] at[j], #[trigger] at[k])
    &&& forall|p: (int, int)| #[trigger] checked_at(groups, p) ==> at.contains(p)
}

/// The checked rows of one group.
proof fn lemma_checked_in(rows: Seq<RowModel>) -> (at: Seq<int>)
    ensures
        forall|k: int|
            0 <= k < at.len() ==> 0 <= #[trigger] at[k] < rows.len() && rows[at[k]].checked,
        forall|j: int, k: int| 0 <= j < k < at.len() ==> #[trigger] at[j] < #[trigger] at[k],
        forall|r: int| 0 <= r < rows.len() && (#[trigger] rows[r]).checked ==> at.contains(r),
        checked_in(rows) == Seq::new(at.len(), |k: int| rows[at[k]].offer),
    decreases rows.len(),
{
    if rows.len() == 0 {
        let at = Seq::<int>::empty();
        assert(checked_in(rows) =~= Seq::new(at.len(), |k: int| rows[at[k]].offer));
        at
    } else {
        let front = rows.drop_last();
        let n = rows.len() - 1;
        let before = lemma_checked_in(front);
        assert(rows[n] == rows.last());
        let at = if rows[n].checked {
            before.push(n)
        } else {
            before
        };
        assert forall|k: int| 0 <= k < at.len() implies 0 <= #[trigger] at[k] < rows.len()
            && rows[at[k]].checked by {
            if k < before.len() {
                assert(front[before[k]] == rows[before[k]]);
            }
        }
        assert forall|r: int| 0 <= r < rows.len() && (#[trigger] rows[r]).checked implies at.contains(
            r,
        ) by {
            if r < n {
                assert(front[r] == rows[r]);
                let k = choose|k: int| 0 <= k < before.len() && before[k] == r;
                assert(at[k] == r);
            } else {
                assert(at[before.len() as int] == r);
            }
        }
        assert(checked_in(rows) =~= Seq::new(at.len(), |k: int| rows[at[k]].offer)) by {
            assert forall|k: int| 0 <= k < before.len() implies front[before[k]].offer
                == rows[before[k]].offer by {
                assert(front[before[k]] == rows[before[k]]);
            }
        }
        at
    }
}

/// Every checked row is selected, and nothing else: what is selected are the
/// offers of the checked rows, all of them, from top to bottom.
pub proof fn law_selected_rows(groups: Seq<GroupUiModel>) -> (at: Seq<(int, int)>)
    ensures
        checked_rows(groups, at),
        checked_of(groups).len() == at.len(),
        forall|k: int|
            0 <= k < at.len() ==> #[trigger] checked_of(groups)[k]
                == groups[at[k].0].rows[at[k].1].offer,
    decreases groups.len(),
{
    if groups.len() == 0 {
        Seq::<(int, int)>::empty()
    } else {
        let front = groups.drop_last();
        let n = groups.len() - 1;
        let before = law_selected_rows(front);
        assert(groups[n] == groups.last());
        let rows = groups[n].rows;
        let here = lemma_checked_in(rows);
        let more = Seq::new(here.len(), |k: int| (n, here[k]));
        let at = before + more;
        assert forall|k: int| 0 <= k < at.len() implies checked_at(groups, #[trigger] at[k]) by {
            if k < before.len() {
                assert(checked_at(front, before[k]));
                assert(front[before[k].0] == groups[before[k].0]);
            } else {
                assert(at[k] == more[k - before.len()]);
                assert(rows[here[k - before.len()]].checked);
            }
        }
        assert forall|j: int, k: int| 0 <= j < k < at.len() implies above(
            #[trigger] at[j],
            #[trigger] at[k],
        ) by {
            if k < before.len() {
                assert(above(before[j], before[k]));
            } else {
                assert(at[k] == more[k - before.len()]);
                if j < before.len() {
                    assert(checked_at(front, before[j]));
                } else {
                    assert(at[j] == more[j - before.len()]);
                    assert(here[j - before.len()] < here[k - before.len()]);
                }
            }
        }
        assert forall|p: (int, int)| #[trigger] checked_at(groups, p) implies at.contains(p) by {
            if p.0 < n {
                assert(front[p.0] == groups[p.0]);
                assert(checked_at(front, p));
                let k = choose|k: int| 0 <= k < before.len() && before[k] == p;
                assert(at[k] == p);
            } else {
                assert(rows[p.1].checked);
                let k = choose|k: int| 0 <= k < here.len() && here[k] == p.1;
                assert(more[k] == p);
                assert(at[before.len() + k] == p);
            }
        }
        assert forall|k: int| 0 <= k < at.len() implies #[trigger] checked_of(groups)[k]
            == groups[at[k].0].rows[at[k].1].offer by {
            if k < before.len() {
                assert(checked_of(groups)[k] == checked_of(front)[k]);
                assert(checked_at(front, before[k]));
                assert(front[before[k].0] == groups[before[k].0]);
            } else {
                assert(checked_of(groups)[k] == checked_in(rows)[k - before.len()]);
                assert(at[k] == more[k - before.len()]);
            }
        }
        at
    }
}

/// The size of offers is the sum of their sizes.
pub proof fn law_sizes_add_up(a: Seq<OfferModel>, b: Seq<OfferModel>, o: OfferModel)
    ensures
        sizes(a + b) == sizes(a) + sizes(b),
        sizes(seq![o]) == o.size,
        sizes(Seq::<OfferModel>::empty()) == 0,
    decreases b.len(),
{
    assert(seq![o].drop_last() =~= Seq::<OfferModel>::empty());
    assert(sizes(Seq::<OfferModel>::empty()) == 0);
    if b.len() > 0 {
        law_sizes_add_up(a, b.drop_last(), o);
        assert((a + b).drop_last() =~= a + b.drop_last());
        assert((a + b).last() == b.last());
    } else {
        assert(a + b =~= a);
    }
}

/// The size of what is selected is the sum of the sizes of the checked rows.
pub proof fn law_selected_bytes(m: AppModel) -> (at: Seq<(int, int)>)
    ensures
        checked_rows(m.groups, at),
        selected_bytes(m) == at.fold_left(
            0int,
            |sum: int, p: (int, int)| sum + m.groups[p.0].rows[p.1].offer.size,
        ),
{
    let at = law_selected_rows(m.groups);
    let offers = checked_of(m.groups);
    lemma_sizes_fold(m.groups, offers, at);
    at
}

/// The sum over the rows is the size of their offers.
proof fn lemma_sizes_fold(groups: Seq<GroupUiModel>, offers: Seq<OfferModel>, at: Seq<(int, int)>)
    requires
        offers.len() == at.len(),
        forall|k: int|
            0 <= k < at.len() ==> #[trigger] offers[k] == groups[at[k].0].rows[at[k].1].offer,
    ensures
        sizes(offers) == at.fold_left(
            0int,
            |sum: int, p: (int, int)| sum + groups[p.0].rows[p.1].offer.size,
        ),
    decreases at.len(),
{
    reveal(Seq::fold_left);
    if at.len() > 0 {
        let n = at.len() - 1;
        assert(offers[n] == groups[at[n].0].rows[at[n].1].offer);
        assert forall|k: int| 0 <= k < n implies #[trigger] offers.drop_last()[k]
            == groups[at.drop_last()[k].0].rows[at.drop_last()[k].1].offer by {
            assert(offers.drop_last()[k] == offers[k]);
        }
        lemma_sizes_fold(groups, offers.drop_last(), at.drop_last());
    }
}

/// The check box of a row sets that row, and no other row and nothing else
/// but that the folder of an earlier download is forgotten.
pub proof fn law_check_box(groups: Seq<GroupUiModel>, g: int, r: int, checked: bool)
    requires
        0 <= g < groups.len(),
        0 <= r < groups[g].rows.len(),
    ensures
        ({
            let after = with_check(groups, g, r, checked);
            &&& after.len() == groups.len()
            &&& after[g].rows[r].checked == checked
            &&& forall|i: int| 0 <= i < groups.len() ==> (#[trigger] after[i]).dir == groups[i].dir
                && after[i].rows.len() == groups[i].rows.len()
            &&& forall|i: int, j: int|
                0 <= i < groups.len() && 0 <= j < groups[i].rows.len() ==> (
                #[trigger] after[i].rows[j]).offer == groups[i].rows[j].offer && ((i, j) != (g, r)
                    ==> after[i].rows[j].checked == groups[i].rows[j].checked)
        }),
{
}

/// The button of a group checks the first row where no row was checked, and
/// else clears it; it leaves all other rows as they are.
pub proof fn law_group_button(rows: Seq<RowModel>)
    requires
        rows.len() > 0,
    ensures
        ({
            let after = first_checked(rows, !any_checked(rows));
            &&& after.len() == rows.len()
            &&& after[0].checked <==> forall|i: int| 0 <= i < rows.len() ==> !(
            #[trigger] rows[i]).checked
            &&& forall|i: int| 0 <= i < rows.len() ==> (#[trigger] after[i]).offer == rows[i].offer
            &&& forall|i: int|
                1 <= i < rows.len() ==> (#[trigger] after[i]).checked == rows[i].checked
        }),
{
}

// ---------------------------------------------------------------------------
// The name of the folder
// ---------------------------------------------------------------------------

/// A checked row of a feature that is Streamline, or of one that is not.
pub open spec fn checked_kind(
    groups: Seq<GroupUiModel>,
    at: (int, int),
    streamline: bool,
) -> bool {
    checked_at(groups, at) && "sl_sdk"@.is_prefix_of(groups[at.0].dir) == streamline
}

/// `v` is the greatest version of the checked rows of that kind.
pub open spec fn greatest_checked(
    groups: Seq<GroupUiModel>,
    streamline: bool,
    v: u32,
) -> bool {
    &&& exists|p: (int, int)| #[trigger]
        checked_kind(groups, p, streamline) && groups[p.0].rows[p.1].offer.version_id == v
    &&& forall|p: (int, int)| #[trigger]
        checked_kind(groups, p, streamline) ==> groups[p.0].rows[p.1].offer.version_id <= v
}

/// The newest of the checked rows of a group.
proof fn lemma_newest_rows(rows: Seq<RowModel>)
    ensures
        match newest_in(checked_in(rows)) {
            Some(v) => {
                &&& exists|r: int|
                    0 <= r < rows.len() && (#[trigger] rows[r]).checked && rows[r].offer.version_id
                        == v
                &&& forall|r: int|
                    0 <= r < rows.len() && (#[trigger] rows[r]).checked
                        ==> rows[r].offer.version_id <= v
            },
            None => forall|r: int| 0 <= r < rows.len() ==> !(#[trigger] rows[r]).checked,
        },
    decreases rows.len(),
{
    if rows.len() > 0 {
        let front = rows.drop_last();
        let n = rows.len() - 1;
        lemma_newest_rows(front);
        assert(rows[n] == rows.last());
        assert forall|r: int| 0 <= r < n implies #[trigger] rows[r] == front[r] by {}
        let before = newest_in(checked_in(front));
        if rows[n].checked {
            assert(checked_in(rows).drop_last() =~= checked_in(front));
        }
        if before is Some && newest_in(checked_in(rows)) == before {
            let r = choose|r: int|
                0 <= r < front.len() && (#[trigger] front[r]).checked
                    && front[r].offer.version_id == before->0;
            assert(rows[r] == front[r]);
        }
    }
}

/// The newest of the checked rows of a kind.
proof fn lemma_newest_groups(groups: Seq<GroupUiModel>, streamline: bool)
    ensures
        match newest_of(groups, streamline) {
            Some(v) => greatest_checked(groups, streamline, v),
            None => forall|p: (int, int)| !(#[trigger] checked_kind(groups, p, streamline)),
        },
    decreases groups.len(),
{
    if groups.len() > 0 {
        let front = groups.drop_last();
        let n = groups.len() - 1;
        let rows = groups[n].rows;
        lemma_newest_groups(front, streamline);
        lemma_newest_rows(rows);
        assert(groups[n] == groups.last());
        assert(streamline_dir(groups[n].dir) == "sl_sdk"@.is_prefix_of(groups[n].dir));
        assert forall|p: (int, int)| p.0 < n implies #[trigger] checked_kind(groups, p, streamline)
            == checked_kind(front, p, streamline) by {
            if 0 <= p.0 {
                assert(front[p.0] == groups[p.0]);
            }
        }
        let before = newest_of(front, streamline);
        let here = newest_in(checked_in(rows));
        let all = newest_of(groups, streamline);
        if before is Some {
            let p = choose|p: (int, int)| #[trigger]
                checked_kind(front, p, streamline) && front[p.0].rows[p.1].offer.version_id
                    == before->0;
            assert(front[p.0] == groups[p.0]);
            assert(checked_kind(groups, p, streamline));
        }
        if here is Some && streamline_dir(groups[n].dir) == streamline {
            let r = choose|r: int|
                0 <= r < rows.len() && (#[trigger] rows[r]).checked && rows[r].offer.version_id
                    == here->0;
            assert(checked_kind(groups, (n, r), streamline));
        }
        assert forall|p: (int, int)| #[trigger]
            checked_kind(groups, p, streamline) implies all is Some
            && groups[p.0].rows[p.1].offer.version_id <= all->0 by {
            if p.0 < n {
                assert(checked_kind(front, p, streamline));
                assert(front[p.0] == groups[p.0]);
            } else {
                assert(rows[p.1].checked);
            }
        }
    }
}

/// Where a row of a feature that is not Streamline is checked, the folder is
/// named after the greatest version of such rows, whatever else is checked.
/// Only where there is none is it named after the greatest checked Streamline
/// version. Where nothing is checked, it has no name.
pub proof fn law_folder_name(m: AppModel)
    ensures
        (exists|p: (int, int)| #[trigger] checked_kind(m.groups, p, false)) ==> exists|v: u32|
            #[trigger] greatest_checked(m.groups, false, v) && auto_name_spec(m) == version_spec(v),
        (forall|p: (int, int)| !(#[trigger] checked_kind(m.groups, p, false))) && (exists|
            p: (int, int),
        | #[trigger] checked_kind(m.groups, p, true)) ==> exists|v: u32| #[trigger]
            greatest_checked(m.groups, true, v) && auto_name_spec(m) == version_spec(v),
        (forall|p: (int, int)| !(#[trigger] checked_at(m.groups, p))) ==> auto_name_spec(m).len()
            == 0,
        m.auto_name ==> sub_spec(m) == auto_name_spec(m),
{
    lemma_newest_groups(m.groups, false);
    lemma_newest_groups(m.groups, true);
    if forall|p: (int, int)| !(#[trigger] checked_at(m.groups, p)) {
        assert forall|p: (int, int), s: bool| !(#[trigger] checked_kind(m.groups, p, s)) by {
            assert(!checked_at(m.groups, p));
        }
        if newest_of(m.groups, false) is Some {
            assert(greatest_checked(m.groups, false, newest_of(m.groups, false)->0));
        }
        if newest_of(m.groups, true) is Some {
            assert(greatest_checked(m.groups, true, newest_of(m.groups, true)->0));
        }
    }
}

/// What was entered is the folder name with slashes round it, and white space
/// round those: nothing else is taken away.
pub proof fn law_entered_name(m: AppModel) -> (parts: (Seq<char>, Seq<char>, Seq<char>, Seq<char>))
    requires
        !m.auto_name,
    ensures
        m.sub == parts.0 + (parts.1 + sub_spec(m) + parts.2) + parts.3,
        forall|i: int|
            0 <= i < parts.0.len() ==> is_white(#[trigger] parts.0[i]),
        forall|i: int|
            0 <= i < parts.3.len() ==> is_white(#[trigger] parts.3[i]),
        forall|i: int|
            0 <= i < parts.1.len() ==> #[trigger] parts.1[i] == '/' || parts.1[i] == '\\',
        forall|i: int|
            0 <= i < parts.2.len() ==> #[trigger] parts.2[i] == '/' || parts.2[i] == '\\',
        ({
            let inner = parts.1 + sub_spec(m) + parts.2;
            inner.len() > 0 ==> !is_white(inner[0]) && !is_white(
                inner.last(),
            )
        }),
        sub_spec(m).len() > 0 ==> sub_spec(m)[0] != '/' && sub_spec(m)[0] != '\\' && sub_spec(
            m,
        ).last() != '/' && sub_spec(m).last() != '\\',
{
    let (a, d) = law_trim(m.sub);
    let (b, c) = law_trim_slashes(trim_spec(m.sub));
    (a, b, c, d)
}

// ---------------------------------------------------------------------------
// Buttons
// ---------------------------------------------------------------------------

/// A download can begin if and only if nothing is at work, a row is checked
/// and the folder has a name.
pub proof fn law_can_download(m: AppModel)
    ensures
        can_download_spec(m) <==> !m.checking && !m.downloading && sub_spec(m).len() > 0 && exists|
            p: (int, int),
        | #[trigger] checked_at(m.groups, p),
{
    let at = law_selected_rows(m.groups);
    if at.len() > 0 {
        assert(checked_at(m.groups, at[0]));
    }
    if exists|p: (int, int)| #[trigger] checked_at(m.groups, p) {
        let p = choose|p: (int, int)| #[trigger] checked_at(m.groups, p);
        assert(at.contains(p));
    }
}

/// A download begins where nothing is at work and a row is checked: the
/// application is then at work, with the progress set back and the total that
/// of the checked rows; rows, names and status stay as they are. Else nothing
/// changes.
pub proof fn law_download_begins(m: AppModel, dest: Seq<char>)
    requires
        selected_bytes(m) <= u64::MAX,
    ensures
        ({
            let n = download_spec(m, dest);
            let go = !m.checking && !m.downloading && exists|p: (int, int)| #[trigger]
                checked_at(m.groups, p);
            &&& go ==> {
                &&& n.downloading && !n.checking
                &&& n.prog_done == 0 && n.prog_total == selected_bytes(m) && n.prog_label.len() == 0
                &&& n.done_dir is None
                &&& n.groups == m.groups && n.status == m.status && n.last_check == m.last_check
                &&& n.sub == m.sub && n.auto_name == m.auto_name
                &&& n.log.len() > 0 && n.log.last().0 is None
            }
            &&& !go ==> n == m
        }),
        named(m).groups == m.groups,
        named(m).sub == (if m.auto_name {
            auto_name_spec(m)
        } else {
            m.sub
        }),
        named(m) == (AppModel { sub: named(m).sub, ..m }),
{
    law_can_download(AppModel { auto_name: false, sub: seq!['x'], ..m });
    let at = law_selected_rows(m.groups);
    if at.len() > 0 {
        assert(checked_at(m.groups, at[0]));
    }
    if exists|p: (int, int)| #[trigger] checked_at(m.groups, p) {
        let p = choose|p: (int, int)| #[trigger] checked_at(m.groups, p);
        assert(at.contains(p));
    }
}

/// A check begins where nothing is at work: what was on display is gone, and
/// what was entered stays. Else nothing changes.
pub proof fn law_check_begins(m: AppModel)
    ensures
        ({
            let n = check_spec(m);
            &&& !m.checking && !m.downloading ==> {
                &&& n.checking && !n.downloading
                &&& n.groups.len() == 0 && n.done_dir is None
                &&& n.sub == m.sub && n.auto_name == m.auto_name && n.last_check == m.last_check
                &&& n.prog_done == m.prog_done && n.prog_total == m.prog_total && n.prog_label
                    == m.prog_label
            }
            &&& m.checking || m.downloading ==> n == m
        }),
{
}

// ---------------------------------------------------------------------------
// Reports of the workers
// ---------------------------------------------------------------------------

/// After a check that went well, every offer is on display, under its feature
/// and at its place, and the first of each feature alone is checked.
pub proof fn law_check_done(m: AppModel, groups: Seq<GroupModel>, now: nat)
    ensures
        ({
            let n = event_spec(m, EvModel::CheckDone(Ok(groups)), now);
            &&& !n.checking && n.downloading == m.downloading
            &&& n.last_check == Some(hms_spec(now))
            &&& n.groups.len() == groups.len()
            &&& forall|g: int|
                0 <= g < groups.len() ==> (#[trigger] n.groups[g]).dir == groups[g].dir
                    && n.groups[g].rows.len() == groups[g].offers.len()
            &&& forall|g: int, r: int|
                0 <= g < groups.len() && 0 <= r < groups[g].offers.len() ==> (
                #[trigger] n.groups[g].rows[r]).offer == groups[g].offers[r]
                    && n.groups[g].rows[r].checked == (r == 0)
            &&& n.sub == m.sub && n.auto_name == m.auto_name && n.done_dir == m.done_dir
            &&& n.log.len() > 0 && n.log.last() == (None::<bool>, n.status)
        }),
{
}

/// The offers of all groups are counted.
pub proof fn law_offers_counted(a: Seq<GroupModel>, b: Seq<GroupModel>, g: GroupModel)
    ensures
        offers_total(a + b) == offers_total(a) + offers_total(b),
        offers_total(seq![g]) == g.offers.len(),
        offers_total(Seq::<GroupModel>::empty()) == 0,
    decreases b.len(),
{
    assert(seq![g].drop_last() =~= Seq::<GroupModel>::empty());
    assert(offers_total(Seq::<GroupModel>::empty()) == 0);
    if b.len() > 0 {
        law_offers_counted(a, b.drop_last(), g);
        assert((a + b).drop_last() =~= a + b.drop_last());
        assert((a + b).last() == b.last());
    } else {
        assert(a + b =~= a);
    }
}

/// What the other reports do: each changes just what it is about. A failed
/// check, and the end of a download, are shown as the status and reported; a
/// download that ends well leaves its folder to be opened.
pub proof fn law_other_reports(
    m: AppModel,
    text: Seq<char>,
    done: u64,
    total: u64,
    now: nat,
)
    ensures
        ({
            let n = event_spec(m, EvModel::Log(text), now);
            n == (AppModel { log: n.log, ..m }) && n.log.len() > 0 && n.log.last() == (
                None::<bool>,
                text,
            )
        }),
        ({
            let n = event_spec(m, EvModel::Item(Ok(text)), now);
            n == (AppModel { log: n.log, ..m }) && n.log.len() > 0 && n.log.last() == (
                Some(true),
                text,
            )
        }),
        ({
            let n = event_spec(m, EvModel::Item(Err(text)), now);
            n == (AppModel { log: n.log, ..m }) && n.log.len() > 0 && n.log.last() == (
                Some(false),
                text,
            )
        }),
        event_spec(m, EvModel::Prog { done, total, label: text }, now) == (AppModel {
            prog_done: done,
            prog_total: total,
            prog_label: text,
            ..m
        }),
        ({
            let n = event_spec(m, EvModel::CheckDone(Err(text)), now);
            &&& n == (AppModel {
                checking: false,
                last_check: Some(hms_spec(now)),
                status: "Check failed: "@ + text,
                log: n.log,
                ..m
            })
            &&& n.log.len() > 0 && n.log.last() == (Some(false), n.status)
        }),
        ({
            let n = event_spec(m, EvModel::Done(Ok(text)), now);
            &&& n == (AppModel {
                downloading: false,
                done_dir: Some(text),
                status: "Done. Files are in "@ + text,
                log: n.log,
                ..m
            })
            &&& n.log.len() > 0 && n.log.last() == (Some(true), n.status)
        }),
        ({
            let n = event_spec(m, EvModel::Done(Err(text)), now);
            &&& n == (AppModel {
                downloading: false,
                status: "Download failed: "@ + text,
                log: n.log,
                ..m
            })
            &&& n.log.len() > 0 && n.log.last() == (Some(false), n.status)
        }),
{
}

/// Reports are taken one after another, none left out: taking some and then
/// others is taking them all.
pub proof fn law_reports_in_turn(
    m: AppModel,
    a: Seq<EvModel>,
    b: Seq<EvModel>,
    e: EvModel,
    now: nat,
)
    ensures
        events_spec(m, a + b, now) == events_spec(events_spec(m, a, now), b, now),
        events_spec(m, seq![e], now) == event_spec(m, e, now),
        events_spec(m, Seq::<EvModel>::empty(), now) == m,
    decreases b.len(),
{
    assert(seq![e].drop_last() =~= Seq::<EvModel>::empty());
    assert(events_spec(m, Seq::<EvModel>::empty(), now) == m);
    if b.len() > 0 {
        law_reports_in_turn(m, a, b.drop_last(), e, now);
        assert((a + b).drop_last() =~= a + b.drop_last());
        assert((a + b).last() == b.last());
    } else {
        assert(a + b =~= a);
    }
}

/// The time of day is read off hours, minutes and seconds of two digits each,
/// which make up the seconds into the day.
pub proof fn law_time_of_day(t: nat) -> (hms: (nat, nat, nat))
    ensures
        hms.0 < 24,
        hms.1 < 60,
        hms.2 < 60,
        hms.0 * 3600 + hms.1 * 60 + hms.2 == t % 86400,
        hms_spec(t) == two_digits(hms.0) + ":"@ + two_digits(hms.1) + ":"@ + two_digits(hms.2)
            + " UTC"@,
{
    let h = t / 3600 % 24;
    let m = t % 3600 / 60;
    let s = t % 3600 % 60;
    assert(h * 3600 + m * 60 + s == t % 86400);
    (h, m, s)
}

} // verus!
