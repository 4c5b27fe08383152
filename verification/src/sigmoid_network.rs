//! The logistic-sigmoid architecture: every layer, the output included,
//! applies the logistic function; the derivative is `s * (1 - s)`.

use vstd::prelude::*;

use crate::fixed::{fmul, fsub, SCALE};
use crate::math::{sigmoid, sigmoid_deriv_s, sigmoid_one, sigmoid_s};
use crate::matrix::vi;
use crate::network_architecture::NetworkArchitecture;

verus! {

/// The network variant whose every layer applies the logistic function.
pub struct SigmoidNetwork {}

impl NetworkArchitecture for SigmoidNetwork {
    open spec fn act_s(layer: int, n_layers: int, z: Seq<int>) -> Seq<int> {
        z.map_values(|x: int| sigmoid_s(x))
    }

    open spec fn deriv_s(z: Seq<int>) -> Seq<int> {
        z.map_values(|x: int| sigmoid_deriv_s(x))
    }

    proof fn lemma_act_len(layer: int, n_layers: int, z: Seq<int>) {
    }

    fn activate(&self, layer: usize, n_layers: usize, z: &Vec<i64>) -> (r: Vec<i64>) {
        let r = sigmoid(z);
        proof {
            assert(vi(r@) =~= Self::act_s(layer as int, n_layers as int, vi(z@)));
        }
        r
    }

    fn get_derivative(&self, z: &Vec<i64>) -> (r: Vec<i64>) {
        let mut r: Vec<i64> = Vec::new();
        let mut i: usize = 0;
        while i < z.len()
            invariant
                i <= z@.len(),
                r@.len() == i,
                forall|j: int| 0 <= j < i ==> r@[j] as int == sigmoid_deriv_s(z@[j] as int),
            decreases z@.len() - i,
        {
            let s = sigmoid_one(z[i]);
            r.push(fmul(s, fsub(SCALE, s)));
            i += 1;
        }
        proof {
            assert(vi(r@) =~= Self::deriv_s(vi(z@)));
        }
        r
    }
}

} // verus!
