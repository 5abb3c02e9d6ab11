//! Mold tooling: how the curvature measure is shaped before it lands in the
//! thickness range of the shell, and the faces of the shell's inner side.

use vstd::prelude::*;
use crate::text::{ascii_lowercase, trimmed, trimmed_lower_eq};

verus! {

/// How the curvature measure is shaped before it lands in the thickness
/// range. Linear is the default: the cast that worked used it.
#[derive(Clone, Copy, Debug, PartialEq, Eq, Structural)]
pub enum Ramp {
    Linear,
    Smooth,
    Constant,
}

/// The ramp a parameter value names, once trimmed and folded to lower case:
/// "smooth", "constant", and anything else linear.
pub open spec fn ramp_named(s: Seq<char>) -> Ramp {
    if s == "smooth"@ {
        Ramp::Smooth
    } else if s == "constant"@ {
        Ramp::Constant
    } else {
        Ramp::Linear
    }
}

impl Ramp {
    /// The ramp a parameter value names, ignoring surrounding white space
    /// and ASCII case; anything unrecognised is linear.
    pub fn parse(s: &str) -> (r: Ramp)
        ensures
            r == ramp_named(ascii_lowercase(trimmed(s@))),
    {
        if trimmed_lower_eq(s, "smooth") {
            Ramp::Smooth
        } else if trimmed_lower_eq(s, "constant") {
            Ramp::Constant
        } else {
            Ramp::Linear
        }
    }
}

/// The inner shell's faces: each face of the surface, its points moved to
/// the inner copy (`inner_start` on) and its winding reversed so it faces
/// the cavity.
pub open spec fn inner_faces(prims: Seq<Seq<u32>>, inner_start: u32) -> Seq<Seq<int>> {
    prims.map_values(
        |f: Seq<u32>| Seq::new(f.len(), |j: int| f[f.len() - 1 - j] + inner_start),
    )
}

/// The inner shell's faces, for a surface with faces `prims` whose points
/// are copied to `inner_start` on; nothing when the surface has no faces,
/// since a shell of nothing is not an empty shell.
pub fn inner_shell_prims(prims: &Vec<Vec<u32>>, inner_start: u32) -> (r: Option<Vec<Vec<u32>>>)
    requires
        forall|k: int, j: int|
            0 <= k < prims@.len() && 0 <= j < prims@[k]@.len() ==> #[trigger] prims@[k]@[j] + inner_start
                <= u32::MAX,
    ensures
        prims@.len() == 0 ==> r is None,
        prims@.len() > 0 ==> (r matches Some(v) && v@.map_values(
            |f: Vec<u32>| f@.map_values(|i: u32| i as int),
        ) == inner_faces(prims@.map_values(|f: Vec<u32>| f@), inner_start)),
{
    if prims.len() == 0 {
        return None;
    }
    let ghost want = inner_faces(prims@.map_values(|f: Vec<u32>| f@), inner_start);
    let mut out: Vec<Vec<u32>> = Vec::new();
    let mut k: usize = 0;
    while k < prims.len()
        invariant
            k <= prims@.len(),
            want == inner_faces(prims@.map_values(|f: Vec<u32>| f@), inner_start),
            forall|a: int, j: int|
                0 <= a < prims@.len() && 0 <= j < prims@[a]@.len() ==> #[trigger] prims@[a]@[j] + inner_start
                    <= u32::MAX,
            out@.map_values(|f: Vec<u32>| f@.map_values(|i: u32| i as int)) == want.take(k as int),
        decreases prims@.len() - k,
    {
        let f = &prims[k];
        let n = f.len();
        let mut g: Vec<u32> = Vec::new();
        let mut j: usize = 0;
        while j < n
            invariant
                n == f@.len(),
                f == prims@[k as int],
                k < prims@.len(),
                j <= n,
                forall|a: int, b: int|
                    0 <= a < prims@.len() && 0 <= b < prims@[a]@.len() ==> #[trigger] prims@[a]@[b] + inner_start
                        <= u32::MAX,
                g@.len() == j,
                forall|q: int| 0 <= q < j ==> #[trigger] g@[q] == f@[n - 1 - q] + inner_start,
            decreases n - j,
        {
            let v = f[n - 1 - j];
            assert(prims@[k as int]@[n - 1 - j] + inner_start <= u32::MAX);
            g.push(v + inner_start);
            j = j + 1;
        }
        let ghost before = out@.map_values(|f: Vec<u32>| f@.map_values(|i: u32| i as int));
        out.push(g);
        k = k + 1;
        proof {
            assert(g@.map_values(|i: u32| i as int) =~= want[k - 1]);
            assert(out@.map_values(|f: Vec<u32>| f@.map_values(|i: u32| i as int)) =~= before.push(
                want[k - 1],
            ));
            assert(want.take(k as int) =~= want.take(k - 1).push(want[k - 1]));
        }
    }
    proof {
        assert(want.take(k as int) =~= want);
    }
    Some(out)
}

} // verus!
