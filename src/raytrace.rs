use vstd::prelude::*;
use crate::transform::RenderRow;

verus! {

// Ray distances are `f32` values carried as their IEEE-754 bit patterns. For
// values with a clear sign bit that are not NaN, the order of the numbers is
// the order of their bit patterns, so the closest hit is found on integers.

/// The bit pattern of `f32` infinity.
pub const F32_INFINITY_BITS: u32 = 0x7f80_0000;

/// `bits` is a positive, finite `f32`.
pub open spec fn is_positive_distance(bits: u32) -> bool {
    0 < bits && bits < F32_INFINITY_BITS
}

/// `d` holds a positive, finite distance.
pub open spec fn is_hit(d: Option<u32>) -> bool {
    d matches Some(bits) && is_positive_distance(bits)
}

/// Picks, among per-row intersection distances, the row of the closest
/// positive-distance hit; of equally close hits, the first. `None` when no
/// row has one.
pub fn closest_intersection(distances: &Vec<Option<u32>>) -> (r: Option<usize>)
    ensures
        r is None <==> forall|j: int| 0 <= j < distances@.len() ==> !is_hit(#[trigger] distances@[j]),
        r matches Some(i) ==> {
            &&& i < distances@.len()
            &&& is_hit(distances@[i as int])
            &&& forall|j: int| #![trigger distances@[j]] 0 <= j < distances@.len() && is_hit(distances@[j])
                ==> distances@[i as int]->0 <= distances@[j]->0
            &&& forall|j: int| #![trigger distances@[j]] 0 <= j < i && is_hit(distances@[j])
                ==> distances@[i as int]->0 < distances@[j]->0
        },
{
    let mut best: Option<usize> = None;
    let mut best_bits: u32 = 0;
    let mut j: usize = 0;
    while j < distances.len()
        invariant
            j <= distances@.len(),
            best is None <==> forall|k: int| 0 <= k < j ==> !is_hit(#[trigger] distances@[k]),
            best matches Some(i) ==> {
                &&& i < j
                &&& is_hit(distances@[i as int])
                &&& distances@[i as int]->0 == best_bits
                &&& forall|k: int| #![trigger distances@[k]] 0 <= k < j && is_hit(distances@[k])
                    ==> best_bits <= distances@[k]->0
                &&& forall|k: int| #![trigger distances@[k]] 0 <= k < i && is_hit(distances@[k])
                    ==> best_bits < distances@[k]->0
            },
        decreases distances@.len() - j,
    {
        if let Some(bits) = distances[j] {
            if 0 < bits && bits < F32_INFINITY_BITS {
                if best.is_none() || bits < best_bits {
                    best = Some(j);
                    best_bits = bits;
                }
            }
        }
        j = j + 1;
    }
    best
}

/// The closest hit of a ray: the entity hit and the distance, as `f32` bits.
#[derive(Clone, Copy, Debug, PartialEq, Eq, Structural)]
pub struct RayHit {
    pub entity: usize,
    pub distance_bits: u32,
}

/// The closest positive-distance hit among the rendered `rows`, where
/// `distances[i]` is the ray's distance to the model of `rows[i]`, if it
/// meets it; of equally close hits, the one of the first row.
pub fn closest_hit<M>(rows: &Vec<RenderRow<M>>, distances: &Vec<Option<u32>>) -> (r: Option<RayHit>)
    requires
        rows@.len() == distances@.len(),
    ensures
        r is None <==> forall|j: int| 0 <= j < distances@.len() ==> !is_hit(#[trigger] distances@[j]),
        r matches Some(hit) ==> exists|i: int| {
            &&& 0 <= i < rows@.len()
            &&& hit.entity == rows@[i].entity
            &&& distances@[i] == Some(hit.distance_bits)
            &&& is_positive_distance(hit.distance_bits)
            &&& forall|j: int| #![trigger distances@[j]] 0 <= j < distances@.len() && is_hit(distances@[j])
                ==> hit.distance_bits <= distances@[j]->0
            &&& forall|j: int| #![trigger distances@[j]] 0 <= j < i && is_hit(distances@[j])
                ==> hit.distance_bits < distances@[j]->0
        },
{
    match closest_intersection(distances) {
        Some(i) => {
            let distance_bits = distances[i].unwrap();
            Some(RayHit { entity: rows[i].entity, distance_bits })
        },
        None => None,
    }
}

} // verus!
