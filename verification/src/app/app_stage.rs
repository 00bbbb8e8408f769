use vstd::prelude::*;

verus! {

/// The screens of the application, in the order the user meets them.
#[derive(PartialEq, Eq, Structural, Clone, Copy, Debug)]
pub enum AppStage {
    Initial,
    VideoSelect,
    GenerateMosaicDatabase,
    LoadMosaicDatabase,
    ImageSelect,
    SelectMosaicOptions,
    ProcessImage,
    FindingMatches,
    FindingMatchesComplete,
    GeneratingMosaic,
    Quitting,
}

} // verus!
