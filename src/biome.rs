//! Biomes and their selection from a climate sample.
//!
//! Climate values are fixed-point: `CLIMATE_SCALE` stands for 1.0, so a
//! temperature or moisture is an integer in `[0, CLIMATE_SCALE]`. Matching
//! weights are in tenths (`WEIGHT_SCALE` stands for 1.0).

use vstd::prelude::*;

use crate::block::BlockType;

verus! {

/// The fixed-point value of 1.0 for temperature and moisture.
pub const CLIMATE_SCALE: u32 = 10_000;

/// The fixed-point value of 1.0 for matching weights.
pub const WEIGHT_SCALE: u32 = 10;

/// Largest matching weight, in tenths.
pub const MAX_WEIGHT: u32 = 100;

/// Temperature and moisture of one world column.
#[derive(Copy, Clone, Debug, PartialEq, Eq, Structural)]
pub struct ClimateSample {
    pub temperature: u32,
    pub moisture: u32,
}

impl ClimateSample {
    pub open spec fn wf(&self) -> bool {
        self.temperature <= CLIMATE_SCALE && self.moisture <= CLIMATE_SCALE
    }
}

/// The climate a biome prefers and how strongly each axis counts.
#[derive(Copy, Clone, Debug, PartialEq, Eq, Structural)]
pub struct SurfaceRules {
    pub desired_temperature: u32,
    pub desired_moisture: u32,
    pub temp_weight: u32,
    pub moist_weight: u32,
}

pub open spec fn abs_diff(a: int, b: int) -> int {
    if a >= b {
        a - b
    } else {
        b - a
    }
}

pub open spec fn pow4(d: int) -> int {
    d * d * d * d
}

impl SurfaceRules {
    pub open spec fn wf(&self) -> bool {
        &&& self.desired_temperature <= CLIMATE_SCALE
        &&& self.desired_moisture <= CLIMATE_SCALE
        &&& self.temp_weight <= MAX_WEIGHT
        &&& self.moist_weight <= MAX_WEIGHT
    }

    /// Matching cost of a sample: each axis's weighted distance to the
    /// target, raised to the fourth power.
    pub open spec fn cost(&self, sample: ClimateSample) -> int {
        self.temp_weight * pow4(abs_diff(sample.temperature as int, self.desired_temperature as int))
            + self.moist_weight * pow4(abs_diff(sample.moisture as int, self.desired_moisture as int))
    }

    pub fn compute_delta(&self, sample: &ClimateSample) -> (r: u64)
        requires
            self.wf(),
            sample.wf(),
        ensures
            r == self.cost(*sample),
    {
        let dt: u64 = if sample.temperature >= self.desired_temperature {
            (sample.temperature - self.desired_temperature) as u64
        } else {
            (self.desired_temperature - sample.temperature) as u64
        };
        let dm: u64 = if sample.moisture >= self.desired_moisture {
            (sample.moisture - self.desired_moisture) as u64
        } else {
            (self.desired_moisture - sample.moisture) as u64
        };
        assert(dt * dt <= 100_000_000 && dt * dt * dt <= 1_000_000_000_000 && pow4(dt as int)
            <= 10_000_000_000_000_000) by (nonlinear_arith)
            requires
                dt <= 10_000,
        ;
        assert(dm * dm <= 100_000_000 && dm * dm * dm <= 1_000_000_000_000 && pow4(dm as int)
            <= 10_000_000_000_000_000) by (nonlinear_arith)
            requires
                dm <= 10_000,
        ;
        assert(self.temp_weight * pow4(dt as int) <= 1_000_000_000_000_000_000 && self.moist_weight
            * pow4(dm as int) <= 1_000_000_000_000_000_000) by (nonlinear_arith)
            requires
                self.temp_weight <= 100,
                self.moist_weight <= 100,
                0 <= pow4(dt as int) <= 10_000_000_000_000_000,
                0 <= pow4(dm as int) <= 10_000_000_000_000_000,
        ;
        let t4 = dt * dt * dt * dt;
        let m4 = dm * dm * dm * dm;
        self.temp_weight as u64 * t4 + self.moist_weight as u64 * m4
    }
}

#[derive(Copy, Clone, Debug, PartialEq, Eq, Hash, Structural)]
pub enum BiomeKind {
    Plains,
    Desert,
    Tundra,
    Jungle,
    Savanna,
    BorealForest,
    TemperateForest,
}

/// One entry of the biome catalogue.
#[derive(Copy, Clone, Debug, PartialEq, Eq, Structural)]
pub struct Biome {
    pub surface: SurfaceRules,
    pub kind: BiomeKind,
    /// The block that covers the biome's ground.
    pub ground: BlockType,
}

impl Biome {
    pub fn ground_block(&self) -> (r: BlockType)
        ensures
            r == self.ground,
    {
        self.ground
    }
}

pub open spec fn rules(t: u32, m: u32, tw: u32, mw: u32) -> SurfaceRules {
    SurfaceRules { desired_temperature: t, desired_moisture: m, temp_weight: tw, moist_weight: mw }
}

/// The standard biome catalogue, in registry order.
pub open spec fn default_biomes() -> Seq<Biome> {
    seq![
        Biome {
            kind: BiomeKind::Plains,
            surface: rules(6000, 5000, 10, 10),
            ground: BlockType::Grass,
        },
        Biome {
            kind: BiomeKind::Desert,
            surface: rules(8500, 2500, 10, 50),
            ground: BlockType::Sand,
        },
        Biome {
            kind: BiomeKind::Tundra,
            surface: rules(1500, 3000, 30, 8),
            ground: BlockType::Snow,
        },
        Biome {
            kind: BiomeKind::Jungle,
            surface: rules(8500, 9000, 20, 25),
            ground: BlockType::Grass,
        },
        Biome {
            kind: BiomeKind::Savanna,
            surface: rules(8000, 4000, 12, 15),
            ground: BlockType::Grass,
        },
        Biome {
            kind: BiomeKind::BorealForest,
            surface: rules(3000, 6000, 20, 12),
            ground: BlockType::Grass,
        },
        Biome {
            kind: BiomeKind::TemperateForest,
            surface: rules(5500, 7500, 15, 20),
            ground: BlockType::Grass,
        },
    ]
}

/// Index of a lowest-cost biome among the first `n`; which one of several
/// equal costs is an implementation detail.
spec fn best_index(biomes: Seq<Biome>, sample: ClimateSample, n: int) -> int
    decreases n,
{
    if n <= 1 {
        0
    } else {
        let b = best_index(biomes, sample, n - 1);
        if biomes[b].surface.cost(sample) > biomes[n - 1].surface.cost(sample) {
            n - 1
        } else {
            b
        }
    }
}

/// The biome that `pick` chooses for `sample`: one of lowest matching cost
/// (see `lemma_chosen_biome_is_minimal`). Which of several equally good
/// biomes it is stays unstated; it depends on the catalogue and the sample
/// alone.
pub closed spec fn chosen_biome(biomes: Seq<Biome>, sample: ClimateSample) -> int {
    best_index(biomes, sample, biomes.len() as int)
}

/// Picks biomes for climate samples from a non-empty catalogue.
pub struct BiomeSelector {
    pub biomes: Vec<Biome>,
}

impl BiomeSelector {
    pub open spec fn wf(&self) -> bool {
        &&& self.biomes@.len() > 0
        &&& forall|k: int| 0 <= k < self.biomes@.len() ==> (#[trigger] self.biomes@[k]).surface.wf()
    }

    /// A selector over `biomes`, checked once here so that picking never
    /// meets an empty catalogue: `None` if the catalogue is empty or a rule
    /// is out of range.
    pub fn new(biomes: Vec<Biome>) -> (r: Option<BiomeSelector>)
        ensures
            r is Some <==> (BiomeSelector { biomes }).wf(),
            r matches Some(sel) ==> sel.biomes@ == biomes@,
    {
        if biomes.len() == 0 {
            return None;
        }
        let mut k: usize = 0;
        while k < biomes.len()
            invariant
                k <= biomes@.len(),
                forall|j: int| 0 <= j < k ==> (#[trigger] biomes@[j]).surface.wf(),
            decreases biomes@.len() - k,
        {
            let rule = biomes[k].surface;
            if rule.desired_temperature > CLIMATE_SCALE || rule.desired_moisture > CLIMATE_SCALE
                || rule.temp_weight > MAX_WEIGHT || rule.moist_weight > MAX_WEIGHT {
                return None;
            }
            k = k + 1;
        }
        Some(BiomeSelector { biomes })
    }

    /// The best-matching biome for `sample`: the one with the lowest
    /// matching cost, the first in catalogue order among equals.
    pub fn pick(&self, sample: &ClimateSample) -> (r: &Biome)
        requires
            self.wf(),
            sample.wf(),
        ensures
            *r == self.biomes@[chosen_biome(self.biomes@, *sample)],
            0 <= chosen_biome(self.biomes@, *sample) < self.biomes@.len(),
            forall|j: int|
                0 <= j < self.biomes@.len() ==> r.surface.cost(*sample) <= (
                #[trigger] self.biomes@[j]).surface.cost(*sample),
    {
        proof {
            lemma_best_index(self.biomes@, *sample, self.biomes@.len() as int);
        }
        let first = &self.biomes[0];
        let mut min_delta = first.surface.compute_delta(sample);
        let mut best: usize = 0;
        let mut k: usize = 1;
        while k < self.biomes.len()
            invariant
                self.wf(),
                sample.wf(),
                1 <= k <= self.biomes@.len(),
                best == best_index(self.biomes@, *sample, k as int),
                best < k,
                min_delta == self.biomes@[best as int].surface.cost(*sample),
            decreases self.biomes@.len() - k,
        {
            let current_delta = self.biomes[k].surface.compute_delta(sample);
            if min_delta > current_delta {
                best = k;
                min_delta = current_delta;
            }
            k = k + 1;
        }
        &self.biomes[best]
    }
}

proof fn lemma_best_index(biomes: Seq<Biome>, sample: ClimateSample, n: int)
    requires
        1 <= n <= biomes.len(),
    ensures
        0 <= best_index(biomes, sample, n) < n,
        forall|j: int|
            0 <= j < n ==> biomes[best_index(biomes, sample, n)].surface.cost(sample) <= (
            #[trigger] biomes[j]).surface.cost(sample),
    decreases n,
{
    if n > 1 {
        lemma_best_index(biomes, sample, n - 1);
    }
}

/// The chosen biome matches best: it belongs to the catalogue and no biome
/// of the catalogue has a lower matching cost.
pub proof fn lemma_chosen_biome_is_minimal(biomes: Seq<Biome>, sample: ClimateSample)
    requires
        biomes.len() > 0,
    ensures
        0 <= chosen_biome(biomes, sample) < biomes.len(),
        forall|j: int|
            0 <= j < biomes.len() ==> biomes[chosen_biome(biomes, sample)].surface.cost(sample) <= (
            #[trigger] biomes[j]).surface.cost(sample),
{
    lemma_best_index(biomes, sample, biomes.len() as int);
}

impl Default for BiomeSelector {
    /// The selector over the standard catalogue.
    fn default() -> (r: BiomeSelector)
        ensures
            r.wf(),
            r.biomes@ == default_biomes(),
    {
        let biomes = vec![
            Biome {
                kind: BiomeKind::Plains,
                surface: SurfaceRules {
                    desired_temperature: 6000,
                    desired_moisture: 5000,
                    temp_weight: 10,
                    moist_weight: 10,
                },
                ground: BlockType::Grass,
            },
            Biome {
                kind: BiomeKind::Desert,
                surface: SurfaceRules {
                    desired_temperature: 8500,
                    desired_moisture: 2500,
                    temp_weight: 10,
                    moist_weight: 50,
                },
                ground: BlockType::Sand,
            },
            Biome {
                kind: BiomeKind::Tundra,
                surface: SurfaceRules {
                    desired_temperature: 1500,
                    desired_moisture: 3000,
                    temp_weight: 30,
                    moist_weight: 8,
                },
                ground: BlockType::Snow,
            },
            Biome {
                kind: BiomeKind::Jungle,
                surface: SurfaceRules {
                    desired_temperature: 8500,
                    desired_moisture: 9000,
                    temp_weight: 20,
                    moist_weight: 25,
                },
                ground: BlockType::Grass,
            },
            Biome {
                kind: BiomeKind::Savanna,
                surface: SurfaceRules {
                    desired_temperature: 8000,
                    desired_moisture: 4000,
                    temp_weight: 12,
                    moist_weight: 15,
                },
                ground: BlockType::Grass,
            },
            Biome {
                kind: BiomeKind::BorealForest,
                surface: SurfaceRules {
                    desired_temperature: 3000,
                    desired_moisture: 6000,
                    temp_weight: 20,
                    moist_weight: 12,
                },
                ground: BlockType::Grass,
            },
            Biome {
                kind: BiomeKind::TemperateForest,
                surface: SurfaceRules {
                    desired_temperature: 5500,
                    desired_moisture: 7500,
                    temp_weight: 15,
                    moist_weight: 20,
                },
                ground: BlockType::Grass,
            },
        ];
        let r = BiomeSelector { biomes };
        assert(r.biomes@ =~= default_biomes());
        r
    }
}

} // verus!
