//! The shape of a parsed line: pipelines chained by connectors.

use vstd::prelude::*;
use crate::parser::{Segment, Word};

verus! {

/// Controls whether a chained command runs, given the previous exit code.
#[derive(Debug, Clone, Copy, PartialEq, Eq, Structural)]
pub enum Connector {
    /// `;`: run unconditionally.
    Sequence,
    /// `&&`: run only if the previous command succeeded (exit code 0).
    And,
    /// `||`: run only if the previous command failed (exit code not 0).
    Or,
}

/// One pipeline's worth of words, with the connector that decides whether
/// it runs. The first entry of a chain always has [`Connector::Sequence`].
#[derive(Debug, Clone)]
pub struct ChainEntry {
    /// Words of this pipeline segment (`|` tokens still embedded).
    pub words: Vec<Word>,
    /// How the previous exit code gates this entry.
    pub connector: Connector,
}

/// The mathematical value of a [`ChainEntry`].
pub struct ChainEntryView {
    pub words: Seq<Seq<Segment>>,
    pub connector: Connector,
}

impl View for ChainEntry {
    type V = ChainEntryView;

    open spec fn view(&self) -> ChainEntryView {
        ChainEntryView { words: self.words.deep_view(), connector: self.connector }
    }
}

impl DeepView for ChainEntry {
    type V = ChainEntryView;

    open spec fn deep_view(&self) -> ChainEntryView {
        self@
    }
}

} // verus!
