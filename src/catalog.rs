//! The catalog of reference scenes and nearest-neighbour classification.

use vstd::prelude::*;

use crate::area::Area;
use crate::hashing::{hamming, perceptual_hash_of, PerceptualHash};
use crate::pixels::PixelBuffer;

verus! {

/// One reference screen of the catalog.
#[derive(Clone, Debug)]
pub struct Screen {
    pub area: Area,
    /// Where the reference image came from (a path, for instance).
    pub source: String,
    pub hash: PerceptualHash,
}

/// Why a catalog could not be built.
#[derive(Copy, Clone, Debug, PartialEq, Eq, Structural)]
pub enum CatalogError {
    /// No reference scene was given.
    Empty,
}

/// Reference scenes in insertion order; never empty once built.
#[derive(Clone, Debug)]
pub struct Catalog {
    pub scenes: Vec<Screen>,
}

/// Distance from the query hash `q` to scene `i`.
pub open spec fn scene_distance(scenes: Seq<Screen>, q: Seq<u8>, i: int) -> nat {
    hamming(q, scenes[i].hash.bytes@)
}

/// Scene `i` is at minimal distance from `q`, and no earlier scene is as close.
pub open spec fn is_nearest(scenes: Seq<Screen>, q: Seq<u8>, i: int) -> bool {
    &&& 0 <= i < scenes.len()
    &&& forall|j: int|
        0 <= j < scenes.len() ==> scene_distance(scenes, q, i) <= #[trigger] scene_distance(
            scenes,
            q,
            j,
        )
    &&& forall|j: int|
        0 <= j < i ==> scene_distance(scenes, q, i) < #[trigger] scene_distance(scenes, q, j)
}

impl Screen {
    /// A reference scene for `area`, hashed from its (non-empty) image.
    pub fn new(source: String, area: Area, image: &PixelBuffer) -> (r: Screen)
        requires
            image.wf(),
            image.width > 0,
            image.height > 0,
        ensures
            r.area == area,
            r.source@ == source@,
            r.hash.bytes@ == perceptual_hash_of(image.pixels@, image.width, image.height),
            r.hash.bytes@.len() == 8,
            r.hash.fits(),
    {
        Screen { area, source, hash: PerceptualHash::of_image(image) }
    }
}

impl Catalog {
    /// Not empty, and every hash short enough to measure distances to it.
    pub open spec fn wf(&self) -> bool {
        &&& self.scenes@.len() >= 1
        &&& forall|i: int| 0 <= i < self.scenes@.len() ==> #[trigger] self.scenes@[i].hash.fits()
    }

    /// Builds the catalog; fails exactly when no scene is given.
    pub fn new(scenes: Vec<Screen>) -> (r: Result<Catalog, CatalogError>)
        requires
            forall|i: int| 0 <= i < scenes@.len() ==> #[trigger] scenes@[i].hash.fits(),
        ensures
            r is Err <==> scenes@.len() == 0,
            r matches Err(e) ==> e == CatalogError::Empty,
            r matches Ok(c) ==> c.wf() && c.scenes@ == scenes@,
    {
        if scenes.len() == 0 {
            Err(CatalogError::Empty)
        } else {
            Ok(Catalog { scenes })
        }
    }

    /// Index of the scene nearest to `hash`; ties go to the earliest scene.
    pub fn nearest(&self, hash: &PerceptualHash) -> (r: usize)
        requires
            self.wf(),
            hash.fits(),
        ensures
            is_nearest(self.scenes@, hash.bytes@, r as int),
    {
        let ghost s = self.scenes@;
        let ghost q = hash.bytes@;
        let mut best: usize = 0;
        let mut best_dist: u64 = hash.distance(&self.scenes[0].hash);
        let mut i: usize = 1;
        while i < self.scenes.len()
            invariant
                self.wf(),
                hash.fits(),
                s == self.scenes@,
                q == hash.bytes@,
                1 <= i <= s.len(),
                best < i,
                best_dist == scene_distance(s, q, best as int),
                forall|j: int| 0 <= j < i ==> best_dist <= #[trigger] scene_distance(s, q, j),
                forall|j: int| 0 <= j < best ==> best_dist < #[trigger] scene_distance(s, q, j),
            decreases s.len() - i,
        {
            let d = hash.distance(&self.scenes[i].hash);
            if best_dist > d {
                best = i;
                best_dist = d;
            }
            i = i + 1;
        }
        best
    }

    /// The scene nearest to `hash`; ties go to the earliest scene.
    pub fn classify(&self, hash: &PerceptualHash) -> (r: &Screen)
        requires
            self.wf(),
            hash.fits(),
        ensures
            exists|i: int| is_nearest(self.scenes@, hash.bytes@, i) && *r == self.scenes@[i],
    {
        let i = self.nearest(hash);
        &self.scenes[i]
    }
}

/// Hashes a frame and returns the catalog scene nearest to it.
pub fn locate_screen<'a>(catalog: &'a Catalog, frame: &PixelBuffer) -> (r: &'a Screen)
    requires
        catalog.wf(),
        frame.wf(),
        frame.width > 0,
        frame.height > 0,
    ensures
        exists|i: int|
            is_nearest(
                catalog.scenes@,
                perceptual_hash_of(frame.pixels@, frame.width, frame.height),
                i,
            ) && *r == catalog.scenes@[i],
{
    let hash = PerceptualHash::of_image(frame);
    catalog.classify(&hash)
}

/// Classification is a function of the catalog and the hash: two scenes that
/// both qualify as nearest to the same hash are the same scene, so classifying
/// a hash twice gives the same answer.
pub proof fn lemma_classify_deterministic(catalog: Catalog, hash: PerceptualHash, i: int, j: int)
    requires
        is_nearest(catalog.scenes@, hash.bytes@, i),
        is_nearest(catalog.scenes@, hash.bytes@, j),
    ensures
        i == j,
{
    let s = catalog.scenes@;
    let q = hash.bytes@;
    if i < j {
        assert(scene_distance(s, q, j) < scene_distance(s, q, i));
    } else if j < i {
        assert(scene_distance(s, q, i) < scene_distance(s, q, j));
    }
}

/// In a catalog of one scene, every hash is classified as that scene.
pub proof fn lemma_classify_single_scene(catalog: Catalog, hash: PerceptualHash)
    requires
        catalog.scenes@.len() == 1,
    ensures
        forall|i: int| is_nearest(catalog.scenes@, hash.bytes@, i) <==> i == 0,
{
    let s = catalog.scenes@;
    let q = hash.bytes@;
    assert forall|i: int| is_nearest(s, q, i) <==> i == 0 by {
        if i == 0 {
            assert forall|j: int| 0 <= j < s.len() implies scene_distance(s, q, 0)
                <= #[trigger] scene_distance(s, q, j) by {
                assert(j == 0);
            }
        }
    }
}

} // verus!
