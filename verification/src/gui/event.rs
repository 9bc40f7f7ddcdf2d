//! What the workers report.

use crate::ngx::offer::{group_models, Group, GroupModel};
use crate::number::{push_two_digits, two_digits};
use vstd::prelude::*;

verus! {

/// What a worker reports.
pub enum EvModel {
    Log(Seq<char>),
    CheckDone(Result<Seq<GroupModel>, Seq<char>>),
    Prog { done: u64, total: u64, label: Seq<char> },
    Item(Result<Seq<char>, Seq<char>>),
    Done(Result<Seq<char>, Seq<char>>),
}

/// What a worker reports.
#[derive(Debug)]
pub enum Ev {
    Log(String),
    CheckDone(Result<Vec<Group>, String>),
    Prog { done: u64, total: u64, label: String },
    /// One offer finished (Ok = file list, Err = message).
    Item(Result<String, String>),
    /// Whole download job finished. Ok(path) if anything succeeded.
    Done(Result<String, String>),
}

impl View for Ev {
    type V = EvModel;

    open spec fn view(&self) -> EvModel {
        match self {
            Ev::Log(m) => EvModel::Log(m@),
            Ev::CheckDone(Ok(groups)) => EvModel::CheckDone(Ok(group_models(groups@))),
            Ev::CheckDone(Err(e)) => EvModel::CheckDone(Err(e@)),
            Ev::Prog { done, total, label } => EvModel::Prog {
                done: *done,
                total: *total,
                label: label@,
            },
            Ev::Item(Ok(m)) => EvModel::Item(Ok(m@)),
            Ev::Item(Err(m)) => EvModel::Item(Err(m@)),
            Ev::Done(Ok(path)) => EvModel::Done(Ok(path@)),
            Ev::Done(Err(e)) => EvModel::Done(Err(e@)),
        }
    }
}

/// What a list of reports is.
pub open spec fn ev_models(v: Seq<Ev>) -> Seq<EvModel> {
    v.map_values(|e: Ev| e@)
}

/// The time of day, `t` seconds into the epoch.
pub open spec fn hms_spec(t: nat) -> Seq<char> {
    two_digits(t / 3600 % 24) + ":"@ + two_digits(t % 3600 / 60) + ":"@ + two_digits(
        t % 3600 % 60,
    ) + " UTC"@
}

/// The time of day, `t` seconds into the epoch.
pub fn now_hms(t: u64) -> (r: String)
    ensures
        r@ == hms_spec(t as nat),
{
    let h: u64 = t / 3600 % 24;
    let rem: u64 = t % 3600;
    let mut out = String::new();
    push_two_digits(&mut out, h);
    out.append(":");
    push_two_digits(&mut out, rem / 60);
    out.append(":");
    push_two_digits(&mut out, rem % 60);
    out.append(" UTC");
    assert(out@ =~= hms_spec(t as nat));
    out
}

} // verus!
