//! Persisted per-file setup: the JSON sidecar stored next to each log.

use std::collections::BTreeMap;

use vstd::prelude::*;
use crate::plot::{PlotDef, PlotView};
use crate::time::TimeFormat;
use crate::{marks, plot, text};

verus! {

/// Persisted per-file state, stored as JSON next to the log.
pub struct Setup {
    pub time_format: TimeFormat,
    pub filter: String,
    /// Marked messages by entry index, with optional labels.
    pub marks: BTreeMap<usize, String>,
    /// Entry index of the selected message.
    pub selected: usize,
    /// Custom column definitions in `parse_columns` text form.
    pub columns: String,
    /// Saved plot definitions.
    pub plots: Vec<PlotDef>,
}

/// What a setup holds.
#[verifier::ext_equal]
pub struct SetupView {
    pub time_format: TimeFormat,
    pub filter: Seq<char>,
    pub marks: Map<usize, Seq<char>>,
    pub selected: usize,
    pub columns: Seq<char>,
    pub plots: Seq<PlotView>,
}

impl View for Setup {
    type V = SetupView;

    open spec fn view(&self) -> SetupView {
        SetupView {
            time_format: self.time_format,
            filter: self.filter@,
            marks: marks::labels(self.marks@),
            selected: self.selected,
            columns: self.columns@,
            plots: plot::plot_views(self.plots@),
        }
    }
}

/// The setup of a file without any edits.
pub open spec fn empty() -> SetupView {
    SetupView {
        time_format: TimeFormat::DateTime,
        filter: seq![],
        marks: Map::empty(),
        selected: 0,
        columns: seq![],
        plots: seq![],
    }
}

impl Default for Setup {
    fn default() -> (r: Setup)
        ensures
            r@ == empty(),
    {
        let r = Setup {
            time_format: TimeFormat::DateTime,
            filter: String::new(),
            marks: BTreeMap::new(),
            selected: 0,
            columns: String::new(),
            plots: Vec::new(),
        };
        assert(r@ =~= empty());
        r
    }
}

impl Setup {
    /// A copy of the setup.
    pub fn copied(&self) -> (r: Setup)
        ensures
            r@ == self@,
    {
        Setup {
            time_format: self.time_format,
            filter: self.filter.clone(),
            marks: marks::copied(&self.marks),
            selected: self.selected,
            columns: self.columns.clone(),
            plots: plot::copied_plots(&self.plots),
        }
    }

    /// Whether two setups are the same but for the selected message.
    pub fn same_edits(&self, other: &Setup) -> (r: bool)
        ensures
            r == (self@ == (SetupView { selected: self.selected, ..other@ })),
    {
        self.time_format == other.time_format && text::same_str(
            self.filter.as_str(),
            other.filter.as_str(),
        ) && marks::same(&self.marks, &other.marks) && text::same_str(
            self.columns.as_str(),
            other.columns.as_str(),
        ) && plot::same_plots(&self.plots, &other.plots)
    }
}

/// Path of the setup sidecar for a given log file.
pub open spec fn sidecar(log_path: Seq<char>) -> Seq<char> {
    log_path + ".mavlog.json"@
}

/// Path of the setup sidecar for a given log file.
pub fn setup_path(log_path: &str) -> (r: String)
    ensures
        r@ == sidecar(log_path@),
{
    let mut r = log_path.to_string();
    r.append(".mavlog.json");
    r
}

/// A saved *merged* session: the two source logs, the manual time offset, and
/// all settings. Unlike the per-log [`Setup`] sidecar this names its own logs,
/// so it is opened directly (its file extension is `SESSION_EXT`).
pub struct SessionFile {
    pub primary_path: String,
    pub secondary_path: String,
    pub manual_offset_us: i64,
    pub setup: Setup,
}

/// File extension for session files (JSON content).
pub const SESSION_EXT: &'static str = "mavses";

/// The setup of a log is kept next to it, under its path with an ending.
pub proof fn law_sidecar(log_path: Seq<char>)
    ensures
        sidecar(log_path) == log_path + seq![
            '.',
            'm',
            'a',
            'v',
            'l',
            'o',
            'g',
            '.',
            'j',
            's',
            'o',
            'n',
        ],
{
    reveal_strlit(".mavlog.json");
    assert(".mavlog.json"@ =~= seq!['.', 'm', 'a', 'v', 'l', 'o', 'g', '.', 'j', 's', 'o', 'n']);
}

/// A setup without edits has nothing in it.
pub proof fn law_empty_setup(i: usize)
    ensures
        empty().filter.len() == 0 && empty().columns.len() == 0 && empty().plots.len() == 0,
        !empty().marks.contains_key(i),
        empty().selected == 0,
        empty().time_format == TimeFormat::DateTime,
{
}

} // verus!
