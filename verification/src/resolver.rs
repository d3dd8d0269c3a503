//! The layer-name resolver: maps the network's 1-indexed unconnected-output
//! layer ordinals to the layer names they stand for, and the fatal
//! configuration errors of the pipeline.
use vstd::prelude::*;

verus! {

/// A fatal configuration error: the network definition or the class-name
/// list does not match what the pipeline was asked to do. Carries the
/// offending position.
#[derive(Clone, Copy, PartialEq, Eq, Structural, Debug)]
pub enum ConfigError {
    /// An output-layer ordinal is not in 1..=len(layer names).
    LayerOrdinalOutOfRange { position: usize, ordinal: i64 },
    /// A kept detection's class has no entry in the class-name list.
    MissingClassName { position: usize, class_id: usize },
}

/// Ordinal `ord` (1-indexed) is a valid position in a name list of length `n`.
pub open spec fn ordinal_in_range(ord: i64, n: int) -> bool {
    1 <= ord && ord <= n
}

/// Maps each 1-indexed output-layer ordinal to the layer name at that
/// position: ordinal `i` resolves to the name at 0-indexed position `i - 1`.
/// Pure; fails with the first out-of-range ordinal, if any.
pub fn resolve_layer_names(layer_names: &Vec<String>, ordinals: &Vec<i64>) -> (r: Result<
    Vec<String>,
    ConfigError,
>)
    ensures
        match r {
            Ok(names) => {
                &&& forall|k: int|
                    0 <= k < ordinals@.len() ==> ordinal_in_range(
                        #[trigger] ordinals@[k],
                        layer_names@.len() as int,
                    )
                &&& names@.len() == ordinals@.len()
                &&& forall|k: int|
                    0 <= k < names@.len() ==> (#[trigger] names@[k])@ == layer_names@[ordinals@[k]
                        - 1]@
            },
            Err(e) => {
                &&& e matches ConfigError::LayerOrdinalOutOfRange { position, ordinal }
                &&& e matches ConfigError::LayerOrdinalOutOfRange { position, ordinal } ==> {
                    &&& position < ordinals@.len()
                    &&& ordinal == ordinals@[position as int]
                    &&& !ordinal_in_range(ordinal, layer_names@.len() as int)
                    &&& forall|k: int|
                        0 <= k < position ==> ordinal_in_range(
                            #[trigger] ordinals@[k],
                            layer_names@.len() as int,
                        )
                }
            },
        },
{
    let n = ordinals.len();
    let mut names: Vec<String> = Vec::new();
    let mut k: usize = 0;
    while k < n
        invariant
            n == ordinals@.len(),
            k <= n,
            names@.len() == k,
            forall|m: int|
                0 <= m < k ==> ordinal_in_range(
                    #[trigger] ordinals@[m],
                    layer_names@.len() as int,
                ),
            forall|m: int|
                0 <= m < k ==> (#[trigger] names@[m])@ == layer_names@[ordinals@[m] - 1]@,
        decreases n - k,
    {
        let ord = ordinals[k];
        let mut in_range = false;
        let mut idx: usize = 0;
        if ord >= 1 {
            let om1: u64 = (ord as u64) - 1;
            if om1 < layer_names.len() as u64 {
                in_range = true;
                idx = om1 as usize;
            }
        }
        if !in_range {
            return Err(ConfigError::LayerOrdinalOutOfRange { position: k, ordinal: ord });
        }
        let name = layer_names[idx].clone();
        names.push(name);
        k += 1;
    }
    Ok(names)
}

} // verus!
