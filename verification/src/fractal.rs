//! The lifecycle of one geometric region of the subdivision tree.

use vstd::prelude::*;
use rand::Rng;
use crate::address::TriangleAddress;
use crate::errors::TriangleError;
use crate::subdivision::{subdivide_triangle, are_medial_children};
use crate::triangle::{Triangle, shoelace, area_mantissa, is_nondegenerate};

verus! {

/// The state of a region: created at genesis, active (subdividable),
/// already subdivided, or a permanent void.
#[derive(Debug, Clone, Copy, PartialEq, Eq, Structural)]
pub enum TriangleState {
    Genesis,
    Active,
    Subdivided,
    Void,
}

/// One region of the subdivision tree.
#[derive(Debug, Clone)]
pub struct FractalTriangle {
    /// Process-unique identifier; never reused.
    pub id: u64,
    pub triangle: Triangle,
    pub state: TriangleState,
    /// Generation count; the genesis region has depth 0.
    pub depth: u32,
    /// The parent region, by id; `None` for the genesis region.
    pub parent_id: Option<u64>,
    /// Exactly three entries once subdivided, empty before.
    pub child_ids: Vec<u64>,
    pub address: TriangleAddress,
}

/// Relies on rand::thread_rng and Rng::gen: an arbitrary value chosen by
/// the machine; nothing is promised about it.
#[verifier::external_body]
fn random_u64() -> u64 {
    rand::thread_rng().gen()
}

impl FractalTriangle {
    /// A fresh region with a machine-chosen id and no children yet.
    pub fn new(
        triangle: Triangle,
        state: TriangleState,
        depth: u32,
        parent_id: Option<u64>,
        address: TriangleAddress,
    ) -> (r: FractalTriangle)
        ensures
            r.triangle == triangle,
            r.state == state,
            r.depth == depth,
            r.parent_id == parent_id,
            r.child_ids@ == Seq::<u64>::empty(),
            r.address@ == address@,
    {
        let r = FractalTriangle {
            id: random_u64(),
            triangle,
            state,
            depth,
            parent_id,
            child_ids: Vec::new(),
            address,
        };
        proof {
            assert(r.child_ids@ =~= Seq::<u64>::empty());
        }
        r
    }

    /// Split an `Active` region into its three medial children, each one
    /// Active, one generation deeper, a quarter of the area, and addressed
    /// as the 0th, 1st and 2nd branch below this region's address.
    ///
    /// Fails, without changing the region, if the region is not `Active`,
    /// its triangle is degenerate, or the coordinates have no scale
    /// headroom left.  The transition to `Subdivided` is irreversible:
    /// no method ever sets an `Active` state back.
    pub fn subdivide(&mut self) -> (r: Result<Vec<FractalTriangle>, TriangleError>)
        requires
            old(self).triangle.wf(),
            old(self).depth < u32::MAX,
        ensures
            r is Ok <==> old(self).state == TriangleState::Active
                && is_nondegenerate(old(self).triangle)
                && old(self).triangle.has_headroom(),
            r is Err ==> *final(self) == *old(self)
                && (r matches Err(TriangleError::InvalidTriangle(_))),
            r matches Ok(children) ==> {
                &&& final(self).state == TriangleState::Subdivided
                &&& final(self).id == old(self).id
                &&& final(self).triangle == old(self).triangle
                &&& final(self).depth == old(self).depth
                &&& final(self).parent_id == old(self).parent_id
                &&& final(self).address@ == old(self).address@
                &&& children@.len() == 3
                &&& final(self).child_ids@ == old(self).child_ids@ + seq![
                    children@[0].id, children@[1].id, children@[2].id]
                &&& are_medial_children(old(self).triangle,
                    children@[0].triangle, children@[1].triangle, children@[2].triangle)
                &&& forall|i: int| 0 <= i < 3 ==> {
                    let c = #[trigger] children@[i];
                    &&& c.triangle.wf()
                    &&& c.state == TriangleState::Active
                    &&& c.depth == old(self).depth + 1
                    &&& c.parent_id == Some(old(self).id)
                    &&& c.address@ == old(self).address@.push(i as u8)
                    &&& 4 * shoelace(c.triangle) == shoelace(old(self).triangle)
                    &&& area_mantissa(old(self).triangle) == 4 * area_mantissa(c.triangle)
                    &&& is_nondegenerate(c.triangle)
                }
            },
    {
        if !matches!(self.state, TriangleState::Active) {
            return Err(TriangleError::InvalidTriangle(
                "Triangle must be active to be subdivided".to_string(),
            ));
        }

        let (child_triangle1, child_triangle2, child_triangle3) =
            match subdivide_triangle(&self.triangle) {
                Ok(t) => t,
                Err(e) => {
                    return Err(e);
                },
            };

        let child1_address = self.address.append(0);
        let child2_address = self.address.append(1);
        let child3_address = self.address.append(2);

        let child1 = FractalTriangle::new(
            child_triangle1,
            TriangleState::Active,
            self.depth + 1,
            Some(self.id),
            child1_address,
        );
        let child2 = FractalTriangle::new(
            child_triangle2,
            TriangleState::Active,
            self.depth + 1,
            Some(self.id),
            child2_address,
        );
        let child3 = FractalTriangle::new(
            child_triangle3,
            TriangleState::Active,
            self.depth + 1,
            Some(self.id),
            child3_address,
        );

        self.state = TriangleState::Subdivided;
        self.child_ids.push(child1.id);
        self.child_ids.push(child2.id);
        self.child_ids.push(child3.id);

        let mut children: Vec<FractalTriangle> = Vec::new();
        children.push(child1);
        children.push(child2);
        children.push(child3);
        proof {
            assert(self.child_ids@ =~= old(self).child_ids@ + seq![
                children@[0].id, children@[1].id, children@[2].id]);
        }
        Ok(children)
    }
}

} // verus!
