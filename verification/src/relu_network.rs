//! The rectified-linear architecture: hidden layers apply the rectifier, the
//! final layer applies the normalized-exponential transform, and the
//! derivative (used only on hidden layers) is the positivity indicator.

use vstd::prelude::*;

use crate::fixed::SCALE;
use crate::kernels::relu_ind_s;
use crate::math::{relu, relu_s, softmax, softmax_s};
use crate::matrix::vi;
use crate::network_architecture::NetworkArchitecture;

verus! {

/// The network variant with rectifier hidden layers and a softmax output.
pub struct ReLuNetwork {}

impl NetworkArchitecture for ReLuNetwork {
    open spec fn act_s(layer: int, n_layers: int, z: Seq<int>) -> Seq<int> {
        if layer == n_layers - 1 {
            softmax_s(z)
        } else {
            z.map_values(|x: int| relu_s(x))
        }
    }

    open spec fn deriv_s(z: Seq<int>) -> Seq<int> {
        z.map_values(|x: int| relu_ind_s(x))
    }

    proof fn lemma_act_len(layer: int, n_layers: int, z: Seq<int>) {
    }

    fn activate(&self, layer: usize, n_layers: usize, z: &Vec<i64>) -> (r: Vec<i64>) {
        if n_layers >= 1 && layer == n_layers - 1 {
            if z.len() == 0 {
                let r: Vec<i64> = Vec::new();
                proof {
                    assert(vi(r@) =~= softmax_s(vi(z@)));
                }
                r
            } else {
                softmax(z)
            }
        } else {
            let r = relu(z);
            proof {
                assert(vi(r@) =~= Self::act_s(layer as int, n_layers as int, vi(z@)));
            }
            r
        }
    }

    fn get_derivative(&self, z: &Vec<i64>) -> (r: Vec<i64>) {
        let mut r: Vec<i64> = Vec::new();
        let mut i: usize = 0;
        while i < z.len()
            invariant
                i <= z@.len(),
                r@.len() == i,
                forall|j: int| 0 <= j < i ==> r@[j] as int == relu_ind_s(z@[j] as int),
            decreases z@.len() - i,
        {
            r.push(if z[i] > 0 { SCALE } else { 0 });
            i += 1;
        }
        proof {
            assert(vi(r@) =~= Self::deriv_s(vi(z@)));
        }
        r
    }
}

} // verus!
