//! The texts on display.

use crate::gui::app::{selected_bytes, AppModel, DlssApp};
use crate::gui::rows::checked_of;
use crate::number::{decimal, push_decimal};
use crate::size::{human_size, human_size_spec};
use crate::text::copy_text;
use vstd::prelude::*;

verus! {

/// The text of the button for a download.
pub open spec fn download_button_spec(m: AppModel) -> Seq<char> {
    if m.downloading {
        "Downloading…"@
    } else {
        "Download selected ("@ + human_size_spec(selected_bytes(m)) + ")"@
    }
}

/// The text beside the progress bar.
pub open spec fn progress_text_spec(m: AppModel) -> Seq<char> {
    human_size_spec(m.prog_done as nat) + " / "@ + human_size_spec(m.prog_total as nat) + " — "@
        + m.prog_label
}

/// The text of the button for a check.
pub open spec fn check_button_spec(m: AppModel) -> Seq<char> {
    if m.checking {
        "Checking…"@
    } else {
        "Check NGX servers"@
    }
}

/// How much is selected, if anything is.
pub open spec fn selection_text_spec(m: AppModel) -> Option<Seq<char>> {
    if checked_of(m.groups).len() > 0 {
        Some(decimal(checked_of(m.groups).len()) + " package(s) selected"@)
    } else {
        None
    }
}

/// When the server was last checked, if it was.
pub open spec fn last_check_spec(m: AppModel) -> Option<Seq<char>> {
    match m.last_check {
        Some(t) => Some("last check: "@ + t),
        None => None,
    }
}

/// What is shown in place of the offers where there are none.
pub open spec fn empty_text_spec(m: AppModel) -> Seq<char> {
    if m.checking {
        "Fetching package list from NVIDIA NGX servers…"@
    } else {
        "Press \"Check NGX servers\" to list available DLSS / Streamline packages."@
    }
}

impl DlssApp {
    /// The text of the button for a check.
    pub fn check_button(&self) -> (r: &'static str)
        ensures
            r@ == (if self@.checking {
                "Checking…"@
            } else {
                "Check NGX servers"@
            }),
            r@ == check_button_spec(self@),
    {
        if self.checking {
            "Checking…"
        } else {
            "Check NGX servers"
        }
    }

    /// The text of the button for a download.
    pub fn download_button(&self) -> (r: String)
        requires
            self@.downloading || selected_bytes(self@) <= u64::MAX,
        ensures
            r@ == download_button_spec(self@),
    {
        if self.downloading {
            copy_text("Downloading…")
        } else {
            let (_, bytes) = self.selection();
            let mut out = copy_text("Download selected (");
            out.append(human_size(bytes).as_str());
            out.append(")");
            out
        }
    }

    /// How much is selected, if anything is.
    pub fn selection_text(&self) -> (r: Option<String>)
        requires
            selected_bytes(self@) <= u64::MAX,
        ensures
            match r {
                Some(t) => checked_of(self@.groups).len() > 0 && t@ == decimal(
                    checked_of(self@.groups).len(),
                ) + " package(s) selected"@,
                None => checked_of(self@.groups).len() == 0,
            },
            r is Some <==> selection_text_spec(self@) is Some,
            r matches Some(t) ==> selection_text_spec(self@) == Some(t@),
    {
        let (n, _) = self.selection();
        if n == 0 {
            return None;
        }
        let mut out = String::new();
        push_decimal(&mut out, n as u64);
        out.append(" package(s) selected");
        assert(out@ =~= decimal(n as nat) + " package(s) selected"@);
        Some(out)
    }

    /// The text beside the progress bar.
    pub fn progress_text(&self) -> (r: String)
        ensures
            r@ == progress_text_spec(self@),
    {
        let mut out = human_size(self.prog_done);
        out.append(" / ");
        out.append(human_size(self.prog_total).as_str());
        out.append(" — ");
        out.append(self.prog_label.as_str());
        out
    }

    /// When the server was last checked, if it was.
    pub fn last_check_text(&self) -> (r: Option<String>)
        ensures
            match r {
                Some(t) => self@.last_check is Some && t@ == "last check: "@ + self@.last_check->0,
                None => self@.last_check is None,
            },
            r is Some <==> last_check_spec(self@) is Some,
            r matches Some(t) ==> last_check_spec(self@) == Some(t@),
    {
        match &self.last_check {
            Some(t) => {
                let mut out = copy_text("last check: ");
                out.append(t.as_str());
                Some(out)
            },
            None => None,
        }
    }

    /// What is shown in place of the offers where there are none.
    pub fn empty_text(&self) -> (r: &'static str)
        ensures
            r@ == (if self@.checking {
                "Fetching package list from NVIDIA NGX servers…"@
            } else {
                "Press \"Check NGX servers\" to list available DLSS / Streamline packages."@
            }),
            r@ == empty_text_spec(self@),
    {
        if self.checking {
            "Fetching package list from NVIDIA NGX servers…"
        } else {
            "Press \"Check NGX servers\" to list available DLSS / Streamline packages."
        }
    }
}

} // verus!
