//! What runs of optimizers report.

use vstd::prelude::*;

use crate::json::Json;
use crate::optimizer::bootstrap::BootstrapReport;
use crate::optimizer::engine::Spend;
use crate::optimizer::gepa::{GepaPhase, GepaRun};
use crate::optimizer::matrix::{ParetoStatistics, ParetoView};
use crate::optimizer::pareto::GEPACandidate;
use crate::optimizer::rollouts::{Engine, Overlay};
use crate::optimizer::simba::{SimbaRun, SimbaStep};
use crate::optimizer::structural::{
    Edit, EditableProgram, StructuralRun, StructuralStep,
};
use crate::optimizer::trial::Mean;
use crate::trace::Score;
use std::sync::Arc;

verus! {

/// What a run of GEPA came to. `highest_score_achieved_per_val_task` holds the best score of each
/// validation example, where it has any.
#[derive(Debug)]
pub struct GEPAResult {
    pub best_candidate: GEPACandidate,
    pub all_candidates: Vec<GEPACandidate>,
    pub total_rollouts: usize,
    pub total_lm_calls: usize,
    pub evolution_history: Vec<(usize, i64)>,
    pub highest_score_achieved_per_val_task: Vec<Option<Score>>,
    pub best_outputs_valset: Option<Vec<Json>>,
    pub frontier_history: Vec<ParetoStatistics>,
}

/// What a run of SIMBA came to.
#[derive(Debug)]
pub struct SimbaReport {
    pub baseline_score: Mean,
    pub final_score: Mean,
    pub steps: Vec<SimbaStep>,
    pub accepted: usize,
    pub rejected: usize,
    pub spend: Spend,
}

/// What a search for structure came to: the winner, which is not installed, and how it was found.
#[derive(Debug)]
pub struct StructuralReport {
    pub program: EditableProgram,
    pub overlay: Overlay,
    pub baseline_score: Mean,
    pub final_score: Mean,
    pub edits: Vec<Arc<Edit>>,
    pub steps: Vec<StructuralStep>,
    pub accepted: usize,
    pub rejected: usize,
    pub spend: Spend,
}

/// What a run reports.
#[derive(Debug)]
pub enum Report {
    Nothing,
    Gepa(GEPAResult),
    Simba(SimbaReport),
    Bootstrap(BootstrapReport),
    Custom(Json),
}

impl Report {
    pub fn into_gepa(self) -> (r: Option<GEPAResult>)
        ensures
            r == (match self {
                Report::Gepa(report) => Some(report),
                _ => None,
            }),
    {
        match self {
            Report::Gepa(report) => Some(report),
            _ => None,
        }
    }

    pub fn into_simba(self) -> (r: Option<SimbaReport>)
        ensures
            r == (match self {
                Report::Simba(report) => Some(report),
                _ => None,
            }),
    {
        match self {
            Report::Simba(report) => Some(report),
            _ => None,
        }
    }

    pub fn into_bootstrap(self) -> (r: Option<BootstrapReport>)
        ensures
            r == (match self {
                Report::Bootstrap(report) => Some(report),
                _ => None,
            }),
    {
        match self {
            Report::Bootstrap(report) => Some(report),
            _ => None,
        }
    }
}

impl GepaRun {
    /// The report of a run that is over. `outputs` are those of the winner, where they were
    /// collected.
    pub fn report(self, engine: &Engine, outputs: Option<Vec<Json>>) -> (r: GEPAResult)
        requires
            self.wf(),
            self.phase is Done,
            engine.wf(),
        ensures
            r.best_candidate == self.lineage.entries@[self.phase->Done_best as int].0,
            r.all_candidates == self.all_candidates,
            r.total_rollouts == engine.ledger.spend.metric_calls,
            r.total_lm_calls == engine.ledger.spend.lm_calls,
            r.evolution_history == self.evolution_history,
            exists|pareto: ParetoView| #[trigger]
                pareto.describes(engine.ledger.matrix@, self.val_cols@) && pareto.best
                    == r.highest_score_achieved_per_val_task,
            r.best_outputs_valset == outputs,
            r.frontier_history == self.frontier_history,
    {
        let pareto = engine.pareto_over(&self.val_cols);
        let best = match self.phase {
            GepaPhase::Done { best } => best,
            _ => 0,
        };
        let mut lineage = self.lineage;
        let (best_candidate, _) = lineage.entries.remove(best);
        proof {
            assert(pareto.describes(engine.ledger.matrix@, self.val_cols@));
        }
        let spend = engine.spend();
        GEPAResult {
            best_candidate,
            all_candidates: self.all_candidates,
            total_rollouts: spend.metric_calls,
            total_lm_calls: spend.lm_calls,
            evolution_history: self.evolution_history,
            highest_score_achieved_per_val_task: pareto.best,
            best_outputs_valset: outputs,
            frontier_history: self.frontier_history,
        }
    }
}

impl SimbaRun {
    /// The report of a run that is over.
    pub fn report(self, engine: &Engine) -> (r: SimbaReport)
        requires
            self.wf(),
            self.phase is Done,
            engine.wf(),
        ensures
            r == (SimbaReport {
                baseline_score: self.baseline_score,
                final_score: self.final_score,
                steps: self.steps,
                accepted: self.accepted,
                rejected: self.rejected,
                spend: engine.ledger.spend,
            }),
    {
        SimbaReport {
            baseline_score: self.baseline_score,
            final_score: self.final_score,
            steps: self.steps,
            accepted: self.accepted,
            rejected: self.rejected,
            spend: *engine.spend(),
        }
    }
}

impl StructuralRun {
    /// The report of a search that is over.
    pub fn report(self, engine: &Engine) -> (r: StructuralReport)
        requires
            self.wf(),
            self.phase is Done,
            engine.wf(),
        ensures
            r == (StructuralReport {
                program: self.program,
                overlay: self.incumbent,
                baseline_score: self.baseline_score,
                final_score: self.final_score,
                edits: self.edits,
                steps: self.steps,
                accepted: self.accepted,
                rejected: self.rejected,
                spend: engine.ledger.spend,
            }),
    {
        StructuralReport {
            program: self.program,
            overlay: self.incumbent,
            baseline_score: self.baseline_score,
            final_score: self.final_score,
            edits: self.edits,
            steps: self.steps,
            accepted: self.accepted,
            rejected: self.rejected,
            spend: *engine.spend(),
        }
    }
}

} // verus!
