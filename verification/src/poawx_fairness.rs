//! The measures of the proposer-fairness suite: which ones exist, their
//! names, and the switches that deliberately break each one. The statistics
//! themselves work in floating point and stand outside the library.
use vstd::prelude::*;
pub use crate::splitmix::SplitMix64;

verus! {

/// Which measure's internals to break; every switch defaults to off.
#[derive(Clone, Copy, Debug, PartialEq, Eq, Structural)]
pub struct Mutation {
    pub ks: bool,
    pub binomial: bool,
    pub autocorr: bool,
    pub spearman: bool,
    pub pearson: bool,
    pub threshold: bool,
}

impl Mutation {
    /// No measure broken.
    pub fn none() -> (m: Mutation)
        ensures
            !m.ks && !m.binomial && !m.autocorr && !m.spearman && !m.pearson && !m.threshold,
    {
        Mutation {
            ks: false,
            binomial: false,
            autocorr: false,
            spearman: false,
            pearson: false,
            threshold: false,
        }
    }
}

impl Default for Mutation {
    fn default() -> (m: Mutation)
        ensures
            !m.ks && !m.binomial && !m.autocorr && !m.spearman && !m.pearson && !m.threshold,
    {
        Mutation::none()
    }
}

/// The fairness measures.
#[derive(Clone, Copy, Debug, PartialEq, Eq, Structural)]
pub enum MeasureId {
    M1KsPerKey,
    M2KsPooled,
    M3WinShare,
    M4Autocorr,
    M6OrderSpearman,
    M7KeyByteCorr,
    M10CascadeOccupancy,
}

impl MeasureId {
    /// The measure's name in reports.
    pub fn name(self) -> (s: &'static str)
        ensures
            s@ == match self {
                MeasureId::M1KsPerKey => "M1 per-key KS"@,
                MeasureId::M2KsPooled => "M2 pooled KS"@,
                MeasureId::M3WinShare => "M3 win-share"@,
                MeasureId::M4Autocorr => "M4 autocorr"@,
                MeasureId::M6OrderSpearman => "M6 order rank"@,
                MeasureId::M7KeyByteCorr => "M7 key-byte corr"@,
                MeasureId::M10CascadeOccupancy => "M10 cascade"@,
            },
    {
        match self {
            MeasureId::M1KsPerKey => "M1 per-key KS",
            MeasureId::M2KsPooled => "M2 pooled KS",
            MeasureId::M3WinShare => "M3 win-share",
            MeasureId::M4Autocorr => "M4 autocorr",
            MeasureId::M6OrderSpearman => "M6 order rank",
            MeasureId::M7KeyByteCorr => "M7 key-byte corr",
            MeasureId::M10CascadeOccupancy => "M10 cascade",
        }
    }
}

/// Every measure, in report order.
pub fn all_measures() -> (v: Vec<MeasureId>)
    ensures
        v@ == seq![
            MeasureId::M1KsPerKey,
            MeasureId::M2KsPooled,
            MeasureId::M3WinShare,
            MeasureId::M4Autocorr,
            MeasureId::M6OrderSpearman,
            MeasureId::M7KeyByteCorr,
            MeasureId::M10CascadeOccupancy,
        ],
{
    let v = vec![
        MeasureId::M1KsPerKey,
        MeasureId::M2KsPooled,
        MeasureId::M3WinShare,
        MeasureId::M4Autocorr,
        MeasureId::M6OrderSpearman,
        MeasureId::M7KeyByteCorr,
        MeasureId::M10CascadeOccupancy,
    ];
    assert(v@ =~= seq![
        MeasureId::M1KsPerKey,
        MeasureId::M2KsPooled,
        MeasureId::M3WinShare,
        MeasureId::M4Autocorr,
        MeasureId::M6OrderSpearman,
        MeasureId::M7KeyByteCorr,
        MeasureId::M10CascadeOccupancy,
    ]);
    v
}

} // verus!
