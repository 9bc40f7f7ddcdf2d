//! What holds of the application at every time.

use crate::gui::app::{app_start, busy, check_spec, download_spec, event_spec, logged, named};
use crate::gui::app::{sub_spec, AppModel, LOG_MAX};
use crate::gui::event::EvModel;
use crate::gui::rows::{checked_in, checked_of, fresh_groups, fresh_rows, newer, newest_in};
use crate::gui::rows::{newest_of, GroupUiModel};
use crate::ngx::feature::streamline_dir;
use crate::ngx::offer::{GroupModel, OfferModel};
use crate::text::{is_slash, trim_slashes_end, trim_slashes_spec, trim_slashes_start, trim_spec};
use vstd::prelude::*;

verus! {

/// What holds at every time: the application does one thing at a time, and
/// its report is not too long.
pub open spec fn app_sound(m: AppModel) -> bool {
    !(m.checking && m.downloading) && m.log.len() <= LOG_MAX
}

/// At every time, from the start on, whatever button is pressed and whatever
/// the workers report, the application does one thing at a time, and its
/// report is not too long.
pub proof fn law_app_sound(m: AppModel, dest: Seq<char>, ev: EvModel, now: nat)
    requires
        app_sound(m),
    ensures
        app_sound(app_start()),
        app_sound(check_spec(m)),
        app_sound(download_spec(m, dest)),
        app_sound(download_spec(named(m), dest)),
        app_sound(event_spec(m, ev, now)),
{
}

/// The latest line is always in the report, and no line but the oldest leaves it.
pub proof fn law_report_keeps_latest(
    log: Seq<(Option<bool>, Seq<char>)>,
    ok: Option<bool>,
    text: Seq<char>,
)
    requires
        log.len() <= LOG_MAX,
    ensures
        logged(log, ok, text).len() > 0,
        logged(log, ok, text).last() == (ok, text),
        logged(log, ok, text).is_suffix_of(log.push((ok, text))),
{
    let more = log.push((ok, text));
    let kept = logged(log, ok, text);
    assert(kept =~= more.skip(more.len() - kept.len()));
}

/// While the application is at work, its buttons do nothing.
pub proof fn law_busy_does_nothing(m: AppModel, dest: Seq<char>)
    requires
        busy(m),
    ensures
        check_spec(m) == m,
        download_spec(m, dest) == m,
{
}

/// The rows of a fresh group: the first alone is checked.
proof fn lemma_fresh_checked(offers: Seq<OfferModel>, n: int)
    requires
        0 <= n <= offers.len(),
    ensures
        checked_in(fresh_rows(offers).take(n)) == (if n == 0 {
            seq![]
        } else {
            seq![offers[0]]
        }),
    decreases n,
{
    let rows = fresh_rows(offers);
    if n > 0 {
        lemma_fresh_checked(offers, n - 1);
        assert(rows.take(n).drop_last() =~= rows.take(n - 1));
        assert(rows.take(n).last() == rows[n - 1]);
        if n == 1 {
            assert(checked_in(rows.take(n)) =~= seq![offers[0]]);
        }
    } else {
        assert(rows.take(0) =~= seq![]);
    }
}

/// The first offers of the groups.
pub open spec fn first_offers(groups: Seq<GroupModel>) -> Seq<OfferModel> {
    groups.map_values(|g: GroupModel| g.offers[0])
}

/// After a check, the first offer of every group is selected, which is the
/// newest, and nothing else.
pub proof fn law_newest_preselected(m: AppModel, groups: Seq<GroupModel>, now: nat)
    requires
        forall|i: int| 0 <= i < groups.len() ==> (#[trigger] groups[i]).offers.len() > 0,
    ensures
        checked_of(event_spec(m, EvModel::CheckDone(Ok(groups)), now).groups) == first_offers(
            groups,
        ),
{
    lemma_fresh_groups_checked(groups);
}

/// What is selected in fresh groups.
proof fn lemma_fresh_groups_checked(groups: Seq<GroupModel>)
    requires
        forall|i: int| 0 <= i < groups.len() ==> (#[trigger] groups[i]).offers.len() > 0,
    ensures
        checked_of(fresh_groups(groups)) == first_offers(groups),
    decreases groups.len(),
{
    let fresh = fresh_groups(groups);
    if groups.len() > 0 {
        let front = groups.drop_last();
        assert forall|i: int| 0 <= i < front.len() implies (
        #[trigger] front[i]).offers.len() > 0 by {
            assert(front[i] == groups[i]);
        }
        lemma_fresh_groups_checked(front);
        assert(fresh.drop_last() =~= fresh_groups(front));
        let last = groups.last();
        assert(last == groups[groups.len() - 1]);
        assert(fresh.last().rows == fresh_rows(last.offers));
        lemma_fresh_checked(last.offers, last.offers.len() as int);
        assert(fresh_rows(last.offers).take(last.offers.len() as int) =~= fresh_rows(
            last.offers,
        ));
        assert(checked_of(fresh) =~= first_offers(groups));
    } else {
        assert(checked_of(fresh) =~= first_offers(groups));
    }
}

/// The newest of some versions is one of them, and none is newer.
proof fn lemma_newest_in(offers: Seq<OfferModel>)
    ensures
        match newest_in(offers) {
            Some(v) => {
                &&& exists|i: int| 0 <= i < offers.len() && (#[trigger] offers[i]).version_id == v
                &&& forall|i: int|
                    0 <= i < offers.len() ==> (#[trigger] offers[i]).version_id <= v
            },
            None => offers.len() == 0,
        },
    decreases offers.len(),
{
    if offers.len() > 0 {
        let front = offers.drop_last();
        lemma_newest_in(front);
        let n = offers.len() - 1;
        assert(offers[n] == offers.last());
        assert forall|i: int| 0 <= i < offers.len() implies (
        #[trigger] offers[i]).version_id <= newest_in(offers)->0 by {
            if i < n {
                assert(front[i] == offers[i]);
            }
        }
        if newest_in(front) is Some && newest_in(front)->0 >= offers[n].version_id {
            let v = newest_in(front)->0;
            let i = choose|i: int| 0 <= i < front.len() && (#[trigger] front[i]).version_id == v;
            assert(offers[i].version_id == v);
        }
    }
}

/// The groups that are Streamline, or those that are not.
pub open spec fn of_kind(groups: Seq<GroupUiModel>, streamline: bool) -> Seq<GroupUiModel>
    decreases groups.len(),
{
    if groups.len() == 0 {
        seq![]
    } else if streamline_dir(groups.last().dir) == streamline {
        of_kind(groups.drop_last(), streamline).push(groups.last())
    } else {
        of_kind(groups.drop_last(), streamline)
    }
}

/// The newest of two lists of versions.
proof fn lemma_newest_of_both(a: Seq<OfferModel>, b: Seq<OfferModel>)
    ensures
        newest_in(a + b) == newer(newest_in(a), newest_in(b)),
    decreases b.len(),
{
    if b.len() > 0 {
        lemma_newest_of_both(a, b.drop_last());
        assert((a + b).drop_last() =~= a + b.drop_last());
        assert((a + b).last() == b.last());
    } else {
        assert(a + b =~= a);
    }
}

/// The newest checked version of a kind is that of the checked offers of that kind.
proof fn lemma_newest_of(groups: Seq<GroupUiModel>, streamline: bool)
    ensures
        newest_of(groups, streamline) == newest_in(checked_of(of_kind(groups, streamline))),
    decreases groups.len(),
{
    if groups.len() > 0 {
        lemma_newest_of(groups.drop_last(), streamline);
        let front = of_kind(groups.drop_last(), streamline);
        if streamline_dir(groups.last().dir) == streamline {
            assert(front.push(groups.last()).drop_last() =~= front);
            lemma_newest_of_both(checked_of(front), checked_in(groups.last().rows));
        }
    }
}

/// The version that names the folder is that of a selected offer, and no
/// selected offer of its kind is newer.
pub proof fn law_folder_version_is_newest(groups: Seq<GroupUiModel>, streamline: bool)
    ensures
        ({
            let offers = checked_of(of_kind(groups, streamline));
            match newest_of(groups, streamline) {
                Some(v) => {
                    &&& exists|i: int|
                        0 <= i < offers.len() && (#[trigger] offers[i]).version_id == v
                    &&& forall|i: int|
                        0 <= i < offers.len() ==> (#[trigger] offers[i]).version_id <= v
                },
                None => offers.len() == 0,
            }
        }),
{
    lemma_newest_of(groups, streamline);
    lemma_newest_in(checked_of(of_kind(groups, streamline)));
}

/// Behind the removal of slashes in front, none stands in front.
proof fn lemma_slashes_start(s: Seq<char>)
    ensures
        trim_slashes_start(s).len() > 0 ==> !is_slash(trim_slashes_start(s)[0]),
    decreases s.len(),
{
    if s.len() > 0 && is_slash(s[0]) {
        lemma_slashes_start(s.skip(1));
    }
}

/// Behind the removal of slashes at the end, none stands at the end, and what
/// stands in front is still there.
proof fn lemma_slashes_end(s: Seq<char>)
    ensures
        trim_slashes_end(s).len() > 0 ==> !is_slash(trim_slashes_end(s).last())
            && trim_slashes_end(s)[0] == s[0],
        trim_slashes_end(s).len() <= s.len(),
    decreases s.len(),
{
    if s.len() > 0 && is_slash(s.last()) {
        lemma_slashes_end(s.drop_last());
    }
}

/// A folder name that was entered neither begins nor ends with a slash.
pub proof fn law_folder_has_no_outer_slash(m: AppModel)
    requires
        !m.auto_name,
        sub_spec(m).len() > 0,
    ensures
        !is_slash(sub_spec(m)[0]),
        !is_slash(sub_spec(m).last()),
{
    lemma_slashes_start(trim_spec(m.sub));
    lemma_slashes_end(trim_slashes_start(trim_spec(m.sub)));
    assert(sub_spec(m) == trim_slashes_spec(trim_spec(m.sub)));
}

} // verus!
