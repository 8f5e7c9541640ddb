use vstd::prelude::*;

use crate::analyzer::IterationStrategy;
use crate::ast::{Num, Var};

verus! {

/// What the front end reads and which of its stages it prints.
#[derive(Debug)]
pub struct ParserConfig {
    pub filename: String,
    pub print_token: bool,
    pub print_cst: bool,
    pub print_pretty_cst: bool,
    pub print_ast: bool,
    pub print_pretty_ast: bool,
}

/// The initial state of a concrete run.
#[derive(Debug)]
pub struct InterpreterConfiguration {
    pub init_state: Option<Vec<(Var, Num)>>,
}

/// The numeric abstract domains.
#[derive(Debug, Clone, Copy, PartialEq, Eq, Structural)]
pub enum Domain {
    Sign,
    ExtendedSign,
    BoundedInterval,
    Congruence,
}

/// The parameters of an analysis.
#[derive(Debug)]
pub struct AnalyzerConfiguration {
    pub domain: Domain,
    pub domain_config: Option<String>,
    pub iteration_strategy: IterationStrategy,
    pub init_state: Option<String>,
    pub print_iterations: bool,
}

/// A run of the interpreter or of the analyzer.
#[derive(Debug)]
pub enum Config {
    InterpreterConfiguration { parser_configuration: ParserConfig, config: InterpreterConfiguration },
    AnalyzerConfiguration { parser_configuration: ParserConfig, config: AnalyzerConfiguration },
}

impl Config {
    pub open spec fn parser_conf(&self) -> &ParserConfig {
        match self {
            Config::InterpreterConfiguration { parser_configuration, .. } => parser_configuration,
            Config::AnalyzerConfiguration { parser_configuration, .. } => parser_configuration,
        }
    }

    /// The front-end part of the configuration.
    pub fn get_parser_conf(&self) -> (r: &ParserConfig)
        ensures
            r == self.parser_conf(),
    {
        match self {
            Config::InterpreterConfiguration { parser_configuration, .. } => parser_configuration,
            Config::AnalyzerConfiguration { parser_configuration, .. } => parser_configuration,
        }
    }
}

/// The iteration strategy that the widening and narrowing switches ask for:
/// narrowing only counts together with widening.
pub fn strategy_of(widening: bool, narrowing: bool) -> (r: IterationStrategy)
    ensures
        r == (if !widening {
            IterationStrategy::Simple
        } else if !narrowing {
            IterationStrategy::Widening
        } else {
            IterationStrategy::WideningAndNarrowing
        }),
{
    if !widening {
        IterationStrategy::Simple
    } else if !narrowing {
        IterationStrategy::Widening
    } else {
        IterationStrategy::WideningAndNarrowing
    }
}

} // verus!
