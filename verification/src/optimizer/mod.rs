use rand::rngs::StdRng;
use vstd::prelude::*;

use crate::optimizer::engine::Budget;
use crate::optimizer::rollouts::EngineConfig;
use crate::random;

pub mod bootstrap;
pub mod copro;
pub mod engine;
pub mod flop;
pub mod flop_tools;
pub mod gepa;
pub mod harvest;
pub mod matrix;
pub mod mipro;
pub mod pareto;
pub mod program_engine;
pub mod report;
pub mod rollouts;
pub mod simba;
pub mod store;
pub mod stored;
pub mod structural;
pub mod summary;
pub mod target;
pub mod trial;

verus! {

/// What all optimizers can be told.
#[derive(Clone, Copy, Debug, PartialEq, Eq, Structural)]
pub struct OptimizerCommon {
    pub eval_concurrency: usize,
    pub max_metric_calls: Option<usize>,
    pub max_lm_calls: Option<usize>,
    pub cache_salt: u64,
    pub seed: Option<u64>,
}

impl Default for OptimizerCommon {
    fn default() -> (r: Self)
        ensures
            r == (OptimizerCommon {
                eval_concurrency: 0,
                max_metric_calls: None,
                max_lm_calls: None,
                cache_salt: 0,
                seed: None,
            }),
    {
        OptimizerCommon {
            eval_concurrency: 0,
            max_metric_calls: None,
            max_lm_calls: None,
            cache_salt: 0,
            seed: None,
        }
    }
}

impl OptimizerCommon {
    /// The engine that the settings ask for; at least one rollout runs at a time.
    pub open spec fn engine_config_spec(&self) -> EngineConfig {
        EngineConfig {
            concurrency: if self.eval_concurrency == 0 {
                1
            } else {
                self.eval_concurrency
            },
            budget: Budget {
                max_metric_calls: self.max_metric_calls,
                max_lm_calls: self.max_lm_calls,
                max_tokens: None,
            },
            cache_salt: self.cache_salt,
        }
    }

    pub fn engine_config(&self) -> (r: EngineConfig)
        ensures
            r == self.engine_config_spec(),
    {
        EngineConfig {
            concurrency: if self.eval_concurrency == 0 {
                1
            } else {
                self.eval_concurrency
            },
            budget: Budget {
                max_metric_calls: self.max_metric_calls,
                max_lm_calls: self.max_lm_calls,
                max_tokens: None,
            },
            cache_salt: self.cache_salt,
        }
    }

    /// The generator of an optimization: of its seed when it has one.
    pub fn rng(&self) -> (r: StdRng)
        ensures
            random::is_generator(self.seed, r),
    {
        random::generator(self.seed)
    }
}

} // verus!
