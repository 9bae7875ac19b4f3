//! Stand-alone biome definitions: the climate each prefers and the block
//! that covers its ground.

use vstd::prelude::*;

use crate::biome::SurfaceRules;
use crate::block::BlockType;

verus! {

/// A temperate grassland.
#[derive(Copy, Clone, Debug, PartialEq, Eq, Structural)]
pub struct Plains;

impl Plains {
    pub fn get_surface(&self) -> (r: SurfaceRules)
        ensures
            r == (SurfaceRules {
                desired_temperature: 7000,
                desired_moisture: 4000,
                temp_weight: 10,
                moist_weight: 10,
            }),
            r.wf(),
    {
        SurfaceRules {
            desired_temperature: 7000,
            desired_moisture: 4000,
            temp_weight: 10,
            moist_weight: 10,
        }
    }

    pub fn ground_block(&self) -> (r: BlockType)
        ensures
            r == BlockType::Grass,
    {
        BlockType::Grass
    }
}

/// A hot, dry sand desert.
#[derive(Copy, Clone, Debug, PartialEq, Eq, Structural)]
pub struct Desert;

impl Desert {
    pub fn get_surface(&self) -> (r: SurfaceRules)
        ensures
            r == (SurfaceRules {
                desired_temperature: 7500,
                desired_moisture: 2500,
                temp_weight: 50,
                moist_weight: 10,
            }),
            r.wf(),
    {
        SurfaceRules {
            desired_temperature: 7500,
            desired_moisture: 2500,
            temp_weight: 50,
            moist_weight: 10,
        }
    }

    pub fn ground_block(&self) -> (r: BlockType)
        ensures
            r == BlockType::Sand,
    {
        BlockType::Sand
    }
}

/// A hot, wet jungle.
#[derive(Copy, Clone, Debug, PartialEq, Eq, Structural)]
pub struct Jungle;

impl Jungle {
    pub fn get_surface(&self) -> (r: SurfaceRules)
        ensures
            r == (SurfaceRules {
                desired_temperature: 8500,
                desired_moisture: 9000,
                temp_weight: 20,
                moist_weight: 25,
            }),
            r.wf(),
    {
        SurfaceRules {
            desired_temperature: 8500,
            desired_moisture: 9000,
            temp_weight: 20,
            moist_weight: 25,
        }
    }

    pub fn ground_block(&self) -> (r: BlockType)
        ensures
            r == BlockType::Grass,
    {
        BlockType::Grass
    }
}

/// A cold, snow-covered plain.
#[derive(Copy, Clone, Debug, PartialEq, Eq, Structural)]
pub struct Tundra;

impl Tundra {
    pub fn get_surface(&self) -> (r: SurfaceRules)
        ensures
            r == (SurfaceRules {
                desired_temperature: 1500,
                desired_moisture: 3000,
                temp_weight: 30,
                moist_weight: 8,
            }),
            r.wf(),
    {
        SurfaceRules {
            desired_temperature: 1500,
            desired_moisture: 3000,
            temp_weight: 30,
            moist_weight: 8,
        }
    }

    pub fn ground_block(&self) -> (r: BlockType)
        ensures
            r == BlockType::Snow,
    {
        BlockType::Snow
    }
}

} // verus!
