//! Deterministic names for the standard hook points of transformer models.
//!
//! The hook mechanism itself — registering closures that intercept model
//! computation — belongs to the unverified host; the capture engine only
//! fixes the naming scheme producers and consumers agree on.

use crate::decimal::{spec_decimal, usize_to_string};
use vstd::prelude::*;
use vstd::string::StringExecFns;

verus! {

/// Attention output of one layer.
pub fn attn_out(layer: usize) -> (r: String)
    ensures
        r@ == "layers."@ + spec_decimal(layer as int) + ".attn_out"@,
{
    let mut r: String = "layers.".to_owned();
    r.append(usize_to_string(layer).as_str());
    r.append(".attn_out");
    r
}

/// Attention pattern of one layer.
pub fn attn_pattern(layer: usize) -> (r: String)
    ensures
        r@ == "layers."@ + spec_decimal(layer as int) + ".attn_pattern"@,
{
    let mut r: String = "layers.".to_owned();
    r.append(usize_to_string(layer).as_str());
    r.append(".attn_pattern");
    r
}

/// Feed-forward output of one layer.
pub fn mlp_out(layer: usize) -> (r: String)
    ensures
        r@ == "layers."@ + spec_decimal(layer as int) + ".mlp_out"@,
{
    let mut r: String = "layers.".to_owned();
    r.append(usize_to_string(layer).as_str());
    r.append(".mlp_out");
    r
}

/// Residual stream of one layer.
pub fn residual(layer: usize) -> (r: String)
    ensures
        r@ == "layers."@ + spec_decimal(layer as int) + ".residual"@,
{
    let mut r: String = "layers.".to_owned();
    r.append(usize_to_string(layer).as_str());
    r.append(".residual");
    r
}

} // verus!
