//! The offers on display.

use crate::ngx::feature::{consumer_name_of, streamline_dir, Feature};
use crate::ngx::offer::{offer_models, tag_spec, Group, GroupModel, Offer, OfferModel};
use crate::number::{decimal, push_decimal};
use crate::size::{human_size, human_size_spec};
use crate::text::{chars_of, copy_text};
use vstd::prelude::*;

verus! {

/// What an offer on display is.
pub struct RowModel {
    pub offer: OfferModel,
    pub checked: bool,
}

/// What the offers of a feature on display are.
pub struct GroupUiModel {
    pub dir: Seq<char>,
    pub rows: Seq<RowModel>,
}

/// An offer on display.
#[derive(Debug)]
pub struct RowUi {
    pub offer: Offer,
    pub checked: bool,
}

/// The offers of a feature on display.
#[derive(Debug)]
pub struct GroupUi {
    pub feature: Feature,
    pub rows: Vec<RowUi>,
}

impl View for RowUi {
    type V = RowModel;

    open spec fn view(&self) -> RowModel {
        RowModel { offer: self.offer@, checked: self.checked }
    }
}

/// What a list of offers on display is.
pub open spec fn row_models(v: Seq<RowUi>) -> Seq<RowModel> {
    v.map_values(|r: RowUi| r@)
}

impl View for GroupUi {
    type V = GroupUiModel;

    open spec fn view(&self) -> GroupUiModel {
        GroupUiModel { dir: self.feature@, rows: row_models(self.rows@) }
    }
}

/// What a list of groups on display is.
pub open spec fn group_ui_models(v: Seq<GroupUi>) -> Seq<GroupUiModel> {
    v.map_values(|g: GroupUi| g@)
}

// ---------------------------------------------------------------------------
// Rows
// ---------------------------------------------------------------------------

/// The first mirror of an offer has a sidecar.
pub open spec fn sidecar_spec(o: OfferModel) -> bool {
    o.candidates.len() > 0 && o.candidates[0].sha256_url is Some
}

/// The number of mirrors on display: one at least.
pub open spec fn mirrors_shown(o: OfferModel) -> nat {
    if o.candidates.len() == 0 {
        1
    } else {
        o.candidates.len()
    }
}

/// `n` spaces.
pub open spec fn spaces(n: int) -> Seq<char>
    decreases n,
{
    if n <= 0 {
        seq![]
    } else {
        spaces(n - 1).push(' ')
    }
}

/// `s` with spaces in front, up to `width` characters.
pub open spec fn pad_left(s: Seq<char>, width: int) -> Seq<char> {
    spaces(width - s.len()) + s
}

/// `s` with spaces behind, up to `width` characters.
pub open spec fn pad_right(s: Seq<char>, width: int) -> Seq<char> {
    s + spaces(width - s.len())
}

/// The text of an offer on display.
pub open spec fn row_text_spec(o: OfferModel) -> Seq<char> {
    "v"@ + pad_left(o.version, 9) + pad_right(tag_spec(o.payload, o.dir), 14) + " "@ + pad_left(
        human_size_spec(o.size as nat),
        8,
    ) + "   "@ + decimal(mirrors_shown(o)) + " mirror(s), sha256 "@ + (if sidecar_spec(o) {
        "✓"@
    } else {
        "—"@
    })
}

/// Writes as many spaces as `s` has characters less than `width`.
fn push_spaces(out: &mut String, s: &str, width: usize)
    ensures
        final(out)@ == old(out)@ + spaces(width - s@.len()),
{
    let cs = chars_of(s);
    let n: usize = if cs.len() < width {
        width - cs.len()
    } else {
        0
    };
    let ghost before = out@;
    let mut i: usize = 0;
    assert(before + spaces(0) =~= before);
    assert(spaces(n as int) == spaces(width - s@.len()));
    while i < n
        invariant
            i <= n,
            out@ == before + spaces(i as int),
        decreases n - i,
    {
        out.push(' ');
        i = i + 1;
        assert(out@ =~= before + spaces(i as int));
    }
}

impl RowUi {
    /// Whether the first mirror has a sidecar.
    pub fn sidecar(&self) -> (r: bool)
        ensures
            r == sidecar_spec(self@.offer),
    {
        assert(self@.offer.candidates.len() == self.offer.candidates@.len());
        if self.offer.candidates.len() == 0 {
            return false;
        }
        assert(self@.offer.candidates[0] == self.offer.candidates@[0]@);
        self.offer.candidates[0].sha256_url.is_some()
    }

    /// The number of mirrors on display.
    pub fn mirrors(&self) -> (r: usize)
        ensures
            r == mirrors_shown(self@.offer),
    {
        assert(self@.offer.candidates.len() == self.offer.candidates@.len());
        if self.offer.candidates.len() == 0 {
            1
        } else {
            self.offer.candidates.len()
        }
    }

    /// The text of the row.
    pub fn text(&self) -> (r: String)
        ensures
            r@ == row_text_spec(self@.offer),
    {
        let tag = self.offer.tag();
        let size = human_size(self.offer.size);
        let mut out = copy_text("v");
        push_spaces(&mut out, self.offer.version.as_str(), 9);
        out.append(self.offer.version.as_str());
        out.append(tag.as_str());
        push_spaces(&mut out, tag.as_str(), 14);
        out.append(" ");
        push_spaces(&mut out, size.as_str(), 8);
        out.append(size.as_str());
        out.append("   ");
        push_decimal(&mut out, self.mirrors() as u64);
        out.append(" mirror(s), sha256 ");
        if self.sidecar() {
            out.append("✓");
        } else {
            out.append("—");
        }
        assert(out@ =~= row_text_spec(self@.offer));
        out
    }
}

// ---------------------------------------------------------------------------
// Groups
// ---------------------------------------------------------------------------

/// A row is checked.
pub open spec fn any_checked(rows: Seq<RowModel>) -> bool {
    exists|i: int| 0 <= i < rows.len() && (#[trigger] rows[i]).checked
}

/// The rows with the first one checked, or not.
pub open spec fn first_checked(rows: Seq<RowModel>, checked: bool) -> Seq<RowModel> {
    if rows.len() == 0 {
        rows
    } else {
        rows.update(0, RowModel { offer: rows[0].offer, checked })
    }
}

/// What the button of a group does: it clears the check of the newest version
/// where a row is checked, and else checks the newest version.
pub open spec fn press_spec(g: GroupUiModel) -> GroupUiModel {
    GroupUiModel { dir: g.dir, rows: first_checked(g.rows, !any_checked(g.rows)) }
}

/// The label of the button of a group.
pub open spec fn button_spec(g: GroupUiModel) -> Seq<char> {
    if any_checked(g.rows) {
        "clear"@
    } else {
        "latest"@
    }
}

/// What a group is installed as.
pub open spec fn hint_spec(dir: Seq<char>) -> Seq<char> {
    "→ "@ + match consumer_name_of(dir) {
        Some(name) => name,
        None => "sl.common.dll, sl.dlss.dll, sl.dlss_g.dll, sl.reflex.dll, …"@,
    }
}

impl GroupUi {
    /// Checks the newest version, or clears its check.
    pub fn latest_checked_mut(&mut self, checked: bool)
        ensures
            final(self)@ == (GroupUiModel {
                dir: old(self)@.dir,
                rows: first_checked(old(self)@.rows, checked),
            }),
    {
        let ghost before = self@.rows;
        assert(before.len() == self.rows@.len());
        if self.rows.len() > 0 {
            self.rows[0].checked = checked;
        }
        assert(row_models(self.rows@) =~= first_checked(before, checked));
    }

    /// Whether a row is checked.
    pub fn any(&self) -> (r: bool)
        ensures
            r == any_checked(self@.rows),
    {
        let mut i: usize = 0;
        while i < self.rows.len()
            invariant
                i <= self.rows@.len(),
                forall|j: int| 0 <= j < i ==> !(#[trigger] self.rows@[j]).checked,
            decreases self.rows@.len() - i,
        {
            if self.rows[i].checked {
                assert(row_models(self.rows@)[i as int].checked);
                return true;
            }
            i = i + 1;
        }
        assert forall|j: int| 0 <= j < self@.rows.len() implies !(
        #[trigger] self@.rows[j]).checked by {
            assert(self@.rows[j] == self.rows@[j]@);
        }
        false
    }

    /// What the button of the group does: it clears the check of the newest
    /// version where a row is checked, and else checks the newest version.
    pub fn press(&mut self)
        ensures
            final(self)@ == (GroupUiModel {
                dir: old(self)@.dir,
                rows: first_checked(old(self)@.rows, !any_checked(old(self)@.rows)),
            }),
            final(self)@ == press_spec(old(self)@),
    {
        let any = self.any();
        self.latest_checked_mut(!any);
    }

    /// The label of the button of the group.
    pub fn button(&self) -> (r: &'static str)
        ensures
            r@ == (if any_checked(self@.rows) {
                "clear"@
            } else {
                "latest"@
            }),
            r@ == button_spec(self@),
    {
        if self.any() {
            "clear"
        } else {
            "latest"
        }
    }

    /// What the group is installed as.
    pub fn hint(&self) -> (r: String)
        ensures
            r@ == hint_spec(self@.dir),
    {
        let mut out = copy_text("→ ");
        match self.feature.consumer_name() {
            Some(name) => {
                out.append(name.as_str());
            },
            None => {
                out.append("sl.common.dll, sl.dlss.dll, sl.dlss_g.dll, sl.reflex.dll, …");
            },
        }
        out
    }
}

// ---------------------------------------------------------------------------
// From an offering
// ---------------------------------------------------------------------------

/// The rows for the offers of a feature: the first, which is the newest, is checked.
pub open spec fn fresh_rows(offers: Seq<OfferModel>) -> Seq<RowModel> {
    Seq::new(offers.len(), |i: int| RowModel { offer: offers[i], checked: i == 0 })
}

/// The groups on display for an offering.
pub open spec fn fresh_groups(groups: Seq<GroupModel>) -> Seq<GroupUiModel> {
    groups.map_values(|g: GroupModel| GroupUiModel { dir: g.dir, rows: fresh_rows(g.offers) })
}

/// The number of offers in all the groups.
pub open spec fn offers_total(groups: Seq<GroupModel>) -> nat
    decreases groups.len(),
{
    if groups.len() == 0 {
        0
    } else {
        offers_total(groups.drop_last()) + groups.last().offers.len()
    }
}

/// The group on display for the offers of a feature.
pub fn fresh_group(g: &Group) -> (r: GroupUi)
    ensures
        r@ == (GroupUiModel { dir: g@.dir, rows: fresh_rows(g@.offers) }),
{
    let mut rows: Vec<RowUi> = Vec::new();
    let mut i: usize = 0;
    while i < g.offers.len()
        invariant
            i <= g.offers@.len(),
            rows@.len() == i,
            forall|j: int|
                0 <= j < i ==> (#[trigger] rows@[j])@ == (RowModel {
                    offer: g.offers@[j]@,
                    checked: j == 0,
                }),
        decreases g.offers@.len() - i,
    {
        rows.push(RowUi { offer: g.offers[i].clone(), checked: i == 0 });
        i = i + 1;
    }
    assert(row_models(rows@) =~= fresh_rows(offer_models(g.offers@))) by {
        assert forall|j: int| 0 <= j < rows@.len() implies row_models(rows@)[j] == fresh_rows(
            offer_models(g.offers@),
        )[j] by {
            assert(row_models(rows@)[j] == rows@[j]@);
            assert(offer_models(g.offers@)[j] == g.offers@[j]@);
        }
    }
    GroupUi { feature: g.feature.clone(), rows }
}

// ---------------------------------------------------------------------------
// What is checked
// ---------------------------------------------------------------------------

/// The offers of the checked rows, in order.
pub open spec fn checked_in(rows: Seq<RowModel>) -> Seq<OfferModel>
    decreases rows.len(),
{
    if rows.len() == 0 {
        seq![]
    } else if rows.last().checked {
        checked_in(rows.drop_last()).push(rows.last().offer)
    } else {
        checked_in(rows.drop_last())
    }
}

/// The offers of the checked rows of all the groups, in order.
pub open spec fn checked_of(groups: Seq<GroupUiModel>) -> Seq<OfferModel>
    decreases groups.len(),
{
    if groups.len() == 0 {
        seq![]
    } else {
        checked_of(groups.drop_last()) + checked_in(groups.last().rows)
    }
}

/// The size of all the offers.
pub open spec fn sizes(offers: Seq<OfferModel>) -> nat
    decreases offers.len(),
{
    if offers.len() == 0 {
        0
    } else {
        sizes(offers.drop_last()) + offers.last().size as nat
    }
}

/// The newer of two versions.
pub open spec fn newer(a: Option<u32>, b: Option<u32>) -> Option<u32> {
    match (a, b) {
        (Some(x), Some(y)) => if y > x {
            b
        } else {
            a
        },
        (Some(x), None) => a,
        (None, _) => b,
    }
}

/// The newest of the versions.
pub open spec fn newest_in(offers: Seq<OfferModel>) -> Option<u32>
    decreases offers.len(),
{
    if offers.len() == 0 {
        None
    } else {
        newer(newest_in(offers.drop_last()), Some(offers.last().version_id))
    }
}

/// The newest version that is checked, among the Streamline groups or among the others.
pub open spec fn newest_of(groups: Seq<GroupUiModel>, streamline: bool) -> Option<u32>
    decreases groups.len(),
{
    if groups.len() == 0 {
        None
    } else {
        let before = newest_of(groups.drop_last(), streamline);
        if streamline_dir(groups.last().dir) == streamline {
            newer(before, newest_in(checked_in(groups.last().rows)))
        } else {
            before
        }
    }
}

/// What borrowed offers are.
pub open spec fn borrowed_offers(v: Seq<&Offer>) -> Seq<OfferModel> {
    v.map_values(|o: &Offer| o@)
}

/// The offers of the checked rows.
pub fn checked_offers<'a>(groups: &'a Vec<GroupUi>) -> (r: Vec<&'a Offer>)
    ensures
        borrowed_offers(r@) == checked_of(group_ui_models(groups@)),
{
    let ghost all = group_ui_models(groups@);
    let mut out: Vec<&'a Offer> = Vec::new();
    let mut g: usize = 0;
    assert(borrowed_offers(out@) =~= checked_of(all.take(0)));
    while g < groups.len()
        invariant
            g <= groups@.len(),
            all == group_ui_models(groups@),
            borrowed_offers(out@) == checked_of(all.take(g as int)),
        decreases groups@.len() - g,
    {
        assert(all.take(g + 1).drop_last() =~= all.take(g as int));
        assert(all.take(g + 1).last() == groups@[g as int]@);
        let ghost before = borrowed_offers(out@);
        let rows = &groups[g].rows;
        let ghost here = row_models(rows@);
        let mut i: usize = 0;
        assert(before + checked_in(here.take(0)) =~= before);
        while i < rows.len()
            invariant
                i <= rows@.len(),
                here == row_models(rows@),
                borrowed_offers(out@) == before + checked_in(here.take(i as int)),
            decreases rows@.len() - i,
        {
            assert(here.take(i + 1).drop_last() =~= here.take(i as int));
            assert(here.take(i + 1).last() == rows@[i as int]@);
            let ghost now = borrowed_offers(out@);
            if rows[i].checked {
                out.push(&rows[i].offer);
                assert(borrowed_offers(out@) =~= now.push(rows@[i as int].offer@));
            }
            i = i + 1;
            assert(borrowed_offers(out@) =~= before + checked_in(here.take(i as int)));
        }
        assert(here.take(here.len() as int) =~= here);
        g = g + 1;
    }
    assert(all.take(all.len() as int) =~= all);
    out
}

/// The size of all the offers.
pub fn total_size(offers: &Vec<&Offer>) -> (r: u128)
    ensures
        r == sizes(borrowed_offers(offers@)),
{
    let ghost all = borrowed_offers(offers@);
    let mut total: u128 = 0;
    let mut i: usize = 0;
    assert(all.take(0) =~= seq![]);
    while i < offers.len()
        invariant
            i <= offers@.len(),
            all == borrowed_offers(offers@),
            total == sizes(all.take(i as int)),
            total <= i * 0xFFFF_FFFF_FFFF_FFFF,
        decreases offers@.len() - i,
    {
        assert(all.take(i + 1).drop_last() =~= all.take(i as int));
        assert(all.take(i + 1).last() == offers@[i as int]@);
        total = total + offers[i].size as u128;
        i = i + 1;
    }
    assert(all.take(all.len() as int) =~= all);
    total
}

/// The newest of the checked versions of a group.
fn newest_row(rows: &Vec<RowUi>) -> (r: Option<u32>)
    ensures
        r == newest_in(checked_in(row_models(rows@))),
{
    let ghost all = row_models(rows@);
    let mut best: Option<u32> = None;
    let mut i: usize = 0;
    assert(all.take(0) =~= seq![]);
    while i < rows.len()
        invariant
            i <= rows@.len(),
            all == row_models(rows@),
            best == newest_in(checked_in(all.take(i as int))),
        decreases rows@.len() - i,
    {
        assert(all.take(i + 1).drop_last() =~= all.take(i as int));
        assert(all.take(i + 1).last() == rows@[i as int]@);
        if rows[i].checked {
            let ghost before = checked_in(all.take(i as int));
            assert(checked_in(all.take(i + 1)).drop_last() =~= before);
            match best {
                Some(v) => {
                    if rows[i].offer.version_id > v {
                        best = Some(rows[i].offer.version_id);
                    }
                },
                None => {
                    best = Some(rows[i].offer.version_id);
                },
            }
        }
        i = i + 1;
    }
    assert(all.take(all.len() as int) =~= all);
    best
}

/// The newest version that is checked, among the Streamline groups or among the others.
pub fn newest_checked(groups: &Vec<GroupUi>, streamline: bool) -> (r: Option<u32>)
    ensures
        r == newest_of(group_ui_models(groups@), streamline),
{
    let ghost all = group_ui_models(groups@);
    let mut best: Option<u32> = None;
    let mut g: usize = 0;
    assert(all.take(0) =~= seq![]);
    while g < groups.len()
        invariant
            g <= groups@.len(),
            all == group_ui_models(groups@),
            best == newest_of(all.take(g as int), streamline),
        decreases groups@.len() - g,
    {
        assert(all.take(g + 1).drop_last() =~= all.take(g as int));
        assert(all.take(g + 1).last() == groups@[g as int]@);
        if groups[g].feature.is_streamline() == streamline {
            let here = newest_row(&groups[g].rows);
            match (best, here) {
                (Some(x), Some(y)) => {
                    if y > x {
                        best = here;
                    }
                },
                (Some(x), None) => {},
                (None, _) => {
                    best = here;
                },
            }
        }
        g = g + 1;
    }
    assert(all.take(all.len() as int) =~= all);
    best
}

} // verus!
