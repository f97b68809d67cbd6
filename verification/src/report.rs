//! Reports of pipeline runs.
use vstd::prelude::*;

use crate::options::{mode_name, CostKind, Mode};
use crate::shape::shape_text;
use crate::tensor::{TensorF64, TensorView};
use crate::text::{
    bool_text, bool_text_of, decimal, decimal_text, index_text, join, join_text, string_views,
};

verus! {

/// Self-check status for a pipeline run.
#[derive(Debug, Clone, PartialEq, Eq)]
pub enum CheckStatus {
    /// Checks were not requested.
    NotRequested,
    /// Checks passed with these checks performed.
    Passed(Vec<String>),
    /// Checks failed with an explanatory message.
    Failed(String),
}

/// The contents of a [`CheckStatus`].
pub enum CheckView {
    NotRequested,
    Passed(Seq<Seq<char>>),
    Failed(Seq<char>),
}

impl View for CheckStatus {
    type V = CheckView;

    open spec fn view(&self) -> CheckView {
        match *self {
            CheckStatus::NotRequested => CheckView::NotRequested,
            CheckStatus::Passed(checks) => CheckView::Passed(string_views(checks@)),
            CheckStatus::Failed(m) => CheckView::Failed(m@),
        }
    }
}

impl CheckView {
    /// The text of this status.
    pub open spec fn text(self) -> Seq<char> {
        match self {
            CheckView::NotRequested => "not requested"@,
            CheckView::Passed(checks) => "self-check passed ("@ + join(checks, ", "@) + ")"@,
            CheckView::Failed(m) => "self-check failed: "@ + m,
        }
    }
}

impl CheckStatus {
    /// Renders this status.
    pub fn to_text(&self) -> (r: String)
        ensures
            r@ == self@.text(),
    {
        match self {
            CheckStatus::NotRequested => String::from_str("not requested"),
            CheckStatus::Passed(checks) => String::from_str("self-check passed (").concat(
                join_text(checks, ", ").as_str(),
            ).concat(")"),
            CheckStatus::Failed(m) => String::from_str("self-check failed: ").concat(m.as_str()),
        }
    }
}

/// Coarse run status for command consumers.
#[derive(Debug, Clone, Copy, PartialEq, Eq, Structural)]
pub enum RunStatus {
    /// Pipeline completed successfully.
    Success,
}

/// Structured report from an end-to-end pipeline run.
#[derive(Debug, Clone, PartialEq, Eq)]
pub struct RunReport {
    /// Built-in example name.
    pub example: String,
    /// Input names in graph declaration order.
    pub input_names: Vec<String>,
    /// Mode used throughout the pipeline.
    pub mode: Mode,
    /// Whether the search was requested.
    pub egg_requested: bool,
    /// Cost model requested by the user.
    pub requested_cost: CostKind,
    /// Cost model actually used.
    pub used_cost: CostKind,
    /// Notes emitted during the run.
    pub notes: Vec<String>,
    /// Initial graph node count.
    pub nodes_initial: usize,
    /// Graph node count after rewrite driver.
    pub nodes_after_driver: usize,
    /// Graph node count after the optional search.
    pub nodes_after_egg: usize,
    /// Names of rewrites applied by the driver.
    pub rewrites: Vec<String>,
    /// Whether the driver reached a true fixpoint.
    pub driver_fixpoint: bool,
    /// Whether the pipeline adopted a smaller candidate of the search.
    pub egg_adopted: bool,
    /// Schedule moves chosen by the autotuner.
    pub schedule_moves: Vec<String>,
    /// Cost before schedule autotuning.
    pub cost_before: u64,
    /// Cost after schedule autotuning.
    pub cost_after: u64,
    /// Number of schedule candidates checked.
    pub candidates_evaluated: usize,
    /// Where emitted C was written to disk.
    pub emitted_path: Option<String>,
    /// Emitted C source.
    pub emitted_c: String,
    /// Whether the C backend compiled and ran.
    pub compiled: bool,
    /// Truncated output tensors from compiled C, if compilation ran.
    pub output_preview: Vec<String>,
    /// Self-check status.
    pub check: CheckStatus,
    /// Verbose graph and kernel snapshots.
    pub verbose: Vec<String>,
}

/// The contents of a [`RunReport`].
pub struct ReportView {
    pub example: Seq<char>,
    pub input_names: Seq<Seq<char>>,
    pub mode: Mode,
    pub egg_requested: bool,
    pub requested_cost: CostKind,
    pub used_cost: CostKind,
    pub notes: Seq<Seq<char>>,
    pub nodes_initial: usize,
    pub nodes_after_driver: usize,
    pub nodes_after_egg: usize,
    pub rewrites: Seq<Seq<char>>,
    pub driver_fixpoint: bool,
    pub egg_adopted: bool,
    pub schedule_moves: Seq<Seq<char>>,
    pub cost_before: u64,
    pub cost_after: u64,
    pub candidates_evaluated: usize,
    pub emitted_path: Option<Seq<char>>,
    pub emitted_c: Seq<char>,
    pub compiled: bool,
    pub output_preview: Seq<Seq<char>>,
    pub check: CheckView,
    pub verbose: Seq<Seq<char>>,
}

/// The contents of an optional text.
pub open spec fn optional_text(s: Option<String>) -> Option<Seq<char>> {
    match s {
        Some(t) => Some(t@),
        None => None,
    }
}

impl View for RunReport {
    type V = ReportView;

    open spec fn view(&self) -> ReportView {
        ReportView {
            example: self.example@,
            input_names: string_views(self.input_names@),
            mode: self.mode,
            egg_requested: self.egg_requested,
            requested_cost: self.requested_cost,
            used_cost: self.used_cost,
            notes: string_views(self.notes@),
            nodes_initial: self.nodes_initial,
            nodes_after_driver: self.nodes_after_driver,
            nodes_after_egg: self.nodes_after_egg,
            rewrites: string_views(self.rewrites@),
            driver_fixpoint: self.driver_fixpoint,
            egg_adopted: self.egg_adopted,
            schedule_moves: string_views(self.schedule_moves@),
            cost_before: self.cost_before,
            cost_after: self.cost_after,
            candidates_evaluated: self.candidates_evaluated,
            emitted_path: optional_text(self.emitted_path),
            emitted_c: self.emitted_c@,
            compiled: self.compiled,
            output_preview: string_views(self.output_preview@),
            check: self.check@,
            verbose: string_views(self.verbose@),
        }
    }
}

/// The items in order, or `none`.
pub open spec fn listed_or_none(items: Seq<Seq<char>>) -> Seq<char> {
    if items.len() == 0 {
        "none"@
    } else {
        join(items, ", "@)
    }
}

/// The lines of the items, each after a prefix.
pub open spec fn prefixed_lines(prefix: Seq<char>, items: Seq<Seq<char>>) -> Seq<char>
    decreases items.len(),
{
    if items.len() == 0 {
        Seq::empty()
    } else {
        prefixed_lines(prefix, items.drop_last()) + (prefix + items.last() + "\n"@)
    }
}

impl ReportView {
    /// The lines on the graph.
    pub open spec fn graph_lines(self) -> Seq<char> {
        "example: "@ + self.example + "\ninputs: "@ + join(self.input_names, ", "@) + "\nmode: "@
            + self.mode.text() + "\ngraph: nodes "@ + decimal(self.nodes_initial as nat) + " -> "@
            + decimal(self.nodes_after_driver as nat) + " after driver -> "@ + decimal(
            self.nodes_after_egg as nat,
        ) + " after egg\nrewrites: "@ + listed_or_none(self.rewrites) + " (fixpoint: "@
            + bool_text_of(self.driver_fixpoint) + ")\negg: requested="@ + bool_text_of(
            self.egg_requested,
        ) + ", adopted="@ + bool_text_of(self.egg_adopted) + "\n"@
    }

    /// The lines on the schedule.
    pub open spec fn schedule_lines(self) -> Seq<char> {
        "schedule: "@ + listed_or_none(self.schedule_moves) + " cost "@ + decimal(
            self.cost_before as nat,
        ) + " -> "@ + decimal(self.cost_after as nat) + " ("@ + decimal(
            self.candidates_evaluated as nat,
        ) + " candidates)\ncost model: requested="@ + self.requested_cost.text() + ", used="@
            + self.used_cost.text() + "\n"@
    }

    /// The line on where the source was written.
    pub open spec fn emit_line(self) -> Seq<char> {
        match self.emitted_path {
            Some(path) => "emit: "@ + path + "\n"@,
            None => "emit: not written\n"@,
        }
    }

    /// The line of the outputs, where there are any.
    pub open spec fn output_line(self) -> Seq<char> {
        if self.output_preview.len() == 0 {
            Seq::empty()
        } else {
            "outputs: "@ + join(self.output_preview, "; "@) + "\n"@
        }
    }

    /// The text of the report.
    pub open spec fn text(self) -> Seq<char> {
        self.graph_lines() + self.schedule_lines() + self.emit_line() + "compiled: "@
            + bool_text_of(self.compiled) + "\n"@ + self.output_line() + "check: "@
            + self.check.text() + "\n"@ + prefixed_lines("note: "@, self.notes) + prefixed_lines(
            "\n"@,
            self.verbose,
        )
    }
}

/// Lists the items, or says `none`.
pub fn list_or_none(items: &Vec<String>) -> (r: String)
    ensures
        r@ == listed_or_none(string_views(items@)),
{
    if items.len() == 0 {
        String::from_str("none")
    } else {
        join_text(items, ", ")
    }
}

fn lines(prefix: &str, items: &Vec<String>) -> (r: String)
    ensures
        r@ == prefixed_lines(prefix@, string_views(items@)),
{
    let ghost views = string_views(items@);
    let mut out = String::new();
    proof {
        assert(views.take(0) =~= Seq::empty());
    }
    let mut i: usize = 0;
    while i < items.len()
        invariant
            i <= items@.len(),
            views == string_views(items@),
            out@ == prefixed_lines(prefix@, views.take(i as int)),
        decreases items@.len() - i,
    {
        proof {
            assert(views.take(i as int + 1).drop_last() =~= views.take(i as int));
            assert(views.take(i as int + 1).last() == items@[i as int]@);
        }
        let line = String::from_str(prefix).concat(items[i].as_str()).concat("\n");
        out.append(line.as_str());
        i += 1;
    }
    proof {
        assert(views.take(i as int) =~= views);
    }
    out
}

impl RunReport {
    fn graph_part(&self) -> (r: String)
        ensures
            r@ == self@.graph_lines(),
    {
        String::from_str("example: ")
            .concat(self.example.as_str())
            .concat("\ninputs: ")
            .concat(join_text(&self.input_names, ", ").as_str())
            .concat("\nmode: ")
            .concat(mode_name(self.mode))
            .concat("\ngraph: nodes ")
            .concat(index_text(self.nodes_initial).as_str())
            .concat(" -> ")
            .concat(index_text(self.nodes_after_driver).as_str())
            .concat(" after driver -> ")
            .concat(index_text(self.nodes_after_egg).as_str())
            .concat(" after egg\nrewrites: ")
            .concat(list_or_none(&self.rewrites).as_str())
            .concat(" (fixpoint: ")
            .concat(bool_text(self.driver_fixpoint))
            .concat(")\negg: requested=")
            .concat(bool_text(self.egg_requested))
            .concat(", adopted=")
            .concat(bool_text(self.egg_adopted))
            .concat("\n")
    }

    fn schedule_part(&self) -> (r: String)
        ensures
            r@ == self@.schedule_lines(),
    {
        String::from_str("schedule: ")
            .concat(list_or_none(&self.schedule_moves).as_str())
            .concat(" cost ")
            .concat(decimal_text(self.cost_before).as_str())
            .concat(" -> ")
            .concat(decimal_text(self.cost_after).as_str())
            .concat(" (")
            .concat(index_text(self.candidates_evaluated).as_str())
            .concat(" candidates)\ncost model: requested=")
            .concat(self.requested_cost.to_text())
            .concat(", used=")
            .concat(self.used_cost.to_text())
            .concat("\n")
    }

    /// Renders this report.
    pub fn to_text(&self) -> (r: String)
        ensures
            r@ == self@.text(),
    {
        let emit = match &self.emitted_path {
            Some(path) => String::from_str("emit: ").concat(path.as_str()).concat("\n"),
            None => String::from_str("emit: not written\n"),
        };
        let output = if self.output_preview.len() == 0 {
            String::new()
        } else {
            String::from_str("outputs: ").concat(
                join_text(&self.output_preview, "; ").as_str(),
            ).concat("\n")
        };
        self.graph_part()
            .concat(self.schedule_part().as_str())
            .concat(emit.as_str())
            .concat("compiled: ")
            .concat(bool_text(self.compiled))
            .concat("\n")
            .concat(output.as_str())
            .concat("check: ")
            .concat(self.check.to_text().as_str())
            .concat("\n")
            .concat(lines("note: ", &self.notes).as_str())
            .concat(lines("\n", &self.verbose).as_str())
    }
}

/// The number of values of an output that a report shows.
pub const SHOWN: usize = 8;

/// The preview of an output, with the texts of its first values.
pub open spec fn preview_text(
    index: nat,
    tensor: TensorView<u64>,
    values: Seq<Seq<char>>,
) -> Seq<char> {
    "out"@ + decimal(index) + " shape="@ + shape_text(tensor.shape) + " data=["@ + join(
        values,
        ", "@,
    ) + (if tensor.data.len() > 8 {
        ", ..."@
    } else {
        ""@
    }) + "]"@
}

/// Renders the preview of an output, given the texts of its first values.
pub fn preview_tensor(index: usize, tensor: &TensorF64, values: &Vec<String>) -> (r: String)
    ensures
        r@ == preview_text(index as nat, tensor@, string_views(values@)),
{
    let suffix = if tensor.data.len() > SHOWN {
        ", ..."
    } else {
        ""
    };
    String::from_str("out")
        .concat(index_text(index).as_str())
        .concat(" shape=")
        .concat(tensor.shape.to_text().as_str())
        .concat(" data=[")
        .concat(join_text(values, ", ").as_str())
        .concat(suffix)
        .concat("]")
}

} // verus!
