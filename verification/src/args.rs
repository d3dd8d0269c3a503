//! The command-line options of the detector: paths to the video file, the
//! network weights and configuration, and the class-name list. Parsing from
//! the real command line lives outside the library; this is the parsed,
//! plain-value form the pipeline consumes.
use vstd::prelude::*;

verus! {

/// The detector's file arguments.
pub struct Args {
    /// Video or image file used as input.
    pub file: String,
    /// Network weights file.
    pub weights: String,
    /// Network configuration file.
    pub config: String,
    /// Class-name list file, one name per class id.
    pub coco: String,
}

impl Args {
    pub fn new(file: String, weights: String, config: String, coco: String) -> (a: Args)
        ensures
            a.file == file,
            a.weights == weights,
            a.config == config,
            a.coco == coco,
    {
        Args { file, weights, config, coco }
    }
}

} // verus!
