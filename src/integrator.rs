//! Integrator selection and settings.

use vstd::prelude::*;

verus! {

/// The light-transport estimators.
#[derive(Clone, Copy, Debug, PartialEq, Eq, Structural, Hash, PartialOrd, Ord)]
pub enum IntegratorType {
    PathTracing,
    LightTracing,
    BDPT,
    MLT,
}

/// The estimator a configuration name selects; unknown names select path
/// tracing.
pub open spec fn integrator_type_of(name: Seq<char>) -> IntegratorType {
    if name == seq!['L', 'T'] {
        IntegratorType::LightTracing
    } else if name == seq!['B', 'D', 'P', 'T'] {
        IntegratorType::BDPT
    } else if name == seq!['M', 'L', 'T'] {
        IntegratorType::MLT
    } else {
        IntegratorType::PathTracing
    }
}

/// Whether `s` and `t` hold the same characters.
fn same_text(s: &str, t: &str) -> (r: bool)
    ensures
        r == (s@ == t@),
{
    let n = s.unicode_len();
    if n != t.unicode_len() {
        return false;
    }
    let mut i: usize = 0;
    while i < n
        invariant
            0 <= i <= n,
            n == s@.len(),
            n == t@.len(),
            s@.subrange(0, i as int) == t@.subrange(0, i as int),
        decreases n - i,
    {
        if s.get_char(i) != t.get_char(i) {
            assert(s@[i as int] != t@[i as int]);
            return false;
        }
        assert(s@.subrange(0, i + 1) =~= s@.subrange(0, i as int).push(s@[i as int]));
        assert(t@.subrange(0, i + 1) =~= t@.subrange(0, i as int).push(t@[i as int]));
        i += 1;
    }
    assert(s@ =~= s@.subrange(0, n as int));
    assert(t@ =~= t@.subrange(0, n as int));
    true
}

impl IntegratorType {
    /// "PT", "LT", "BDPT" and "MLT" name the four estimators; any other
    /// name selects path tracing.
    pub fn from_string(string: &str) -> (t: IntegratorType)
        ensures
            t == integrator_type_of(string@),
    {
        proof {
            reveal_strlit("PT");
            reveal_strlit("LT");
            reveal_strlit("BDPT");
            reveal_strlit("MLT");
        }
        if same_text(string, "PT") {
            IntegratorType::PathTracing
        } else if same_text(string, "LT") {
            assert("LT"@ =~= seq!['L', 'T']);
            IntegratorType::LightTracing
        } else if same_text(string, "BDPT") {
            assert("BDPT"@ =~= seq!['B', 'D', 'P', 'T']);
            IntegratorType::BDPT
        } else if same_text(string, "MLT") {
            assert("MLT"@ =~= seq!['M', 'L', 'T']);
            IntegratorType::MLT
        } else {
            assert("LT"@ =~= seq!['L', 'T']);
            assert("BDPT"@ =~= seq!['B', 'D', 'P', 'T']);
            assert("MLT"@ =~= seq!['M', 'L', 'T']);
            IntegratorType::PathTracing
        }
    }
}

/// A wavelength range in nanometres.
#[derive(Clone, Copy, Debug, PartialEq, Eq, Structural)]
pub struct Bounds1D {
    pub lower: u32,
    pub upper: u32,
}

/// The lower end of the visible range, in nanometres.
pub const VISIBLE_LOWER: u32 = 380;

/// The upper end of the visible range, in nanometres.
pub const VISIBLE_UPPER: u32 = 780;

/// The visible range of wavelengths.
pub fn visible_range() -> (r: Bounds1D)
    ensures
        r == (Bounds1D { lower: VISIBLE_LOWER, upper: VISIBLE_UPPER }),
{
    Bounds1D { lower: VISIBLE_LOWER, upper: VISIBLE_UPPER }
}

/// What a render configuration says of its estimator; unset entries take
/// their defaults.
#[derive(Clone, Copy, Debug)]
pub struct RenderSettings {
    pub min_bounces: Option<u16>,
    pub max_bounces: Option<u16>,
    pub russian_roulette: Option<bool>,
    pub light_samples: Option<u16>,
    pub only_direct: Option<bool>,
    pub wavelength_bounds: Option<(u32, u32)>,
}

/// The wavelength bounds of a list of renders: the first render that sets
/// bounds gives them; each later one lowers the lower bound to its own
/// lower bound if that is smaller and raises the upper bound to its own
/// upper bound if that is larger. With none set, `default`.
pub open spec fn merged_bounds(
    settings: Seq<Option<(u32, u32)>>,
    default: Bounds1D,
) -> Bounds1D
    decreases settings.len(),
{
    if settings.len() == 0 {
        default
    } else {
        let before = merged_bounds(settings.drop_last(), default);
        match settings.last() {
            None => before,
            Some((lower, upper)) => {
                if forall|k: int| 0 <= k < settings.len() - 1 ==> settings[k] is None {
                    Bounds1D { lower, upper }
                } else {
                    Bounds1D {
                        lower: if lower < before.lower {
                            lower
                        } else {
                            before.lower
                        },
                        upper: if upper > before.upper {
                            upper
                        } else {
                            before.upper
                        },
                    }
                }
            },
        }
    }
}

/// Merges the wavelength bounds that the renders set, as `merged_bounds`
/// says.
pub fn parse_wavelength_bounds(config: &Vec<RenderSettings>, default: Bounds1D) -> (r: Bounds1D)
    ensures
        r == merged_bounds(config@.map_values(|s: RenderSettings| s.wavelength_bounds), default),
{
    let ghost all = config@.map_values(|s: RenderSettings| s.wavelength_bounds);
    let mut wavelength_bounds: Option<Bounds1D> = None;
    let mut i: usize = 0;
    while i < config.len()
        invariant
            0 <= i <= config.len(),
            all == config@.map_values(|s: RenderSettings| s.wavelength_bounds),
            wavelength_bounds is None <==> forall|k: int| 0 <= k < i ==> all[k] is None,
            wavelength_bounds matches Some(b) ==> b == merged_bounds(all.subrange(0, i as int), default),
        decreases config.len() - i,
    {
        let ghost prefix = all.subrange(0, i as int);
        let ghost next = all.subrange(0, i + 1);
        proof {
            assert(next.drop_last() =~= prefix);
            assert(next.last() == all[i as int]);
            assert forall|k: int| 0 <= k < next.len() - 1 implies next[k] == prefix[k] by {}
        }
        if let Some((lower, upper)) = config[i].wavelength_bounds {
            match wavelength_bounds {
                None => {
                    proof {
                        assert forall|k: int| 0 <= k < next.len() - 1 implies next[k] is None by {
                            assert(all[k] is None);
                        }
                        assert(merged_bounds(next, default) == Bounds1D { lower, upper });
                    }
                    wavelength_bounds = Some(Bounds1D { lower, upper });
                },
                Some(b) => {
                    proof {
                        let k = choose|k: int| 0 <= k < i && !(all[k] is None);
                        assert(!(next[k] is None));
                        assert(merged_bounds(next.drop_last(), default) == b);
                    }
                    wavelength_bounds = Some(
                        Bounds1D {
                            lower: if lower < b.lower {
                                lower
                            } else {
                                b.lower
                            },
                            upper: if upper > b.upper {
                                upper
                            } else {
                                b.upper
                            },
                        },
                    );
                },
            }
        } else {
            proof {
                if wavelength_bounds is None {
                    assert forall|k: int| 0 <= k < i + 1 implies all[k] is None by {}
                }
            }
        }
        i += 1;
    }
    proof {
        assert(all.subrange(0, config.len() as int) =~= all);
    }
    match wavelength_bounds {
        Some(b) => b,
        None => {
            proof {
                lemma_merged_bounds_unset(all, default);
            }
            default
        },
    }
}

proof fn lemma_merged_bounds_unset(settings: Seq<Option<(u32, u32)>>, default: Bounds1D)
    requires
        forall|k: int| 0 <= k < settings.len() ==> settings[k] is None,
    ensures
        merged_bounds(settings, default) == default,
    decreases settings.len(),
{
    if settings.len() > 0 {
        lemma_merged_bounds_unset(settings.drop_last(), default);
    }
}

/// Settings of the unidirectional path tracer.
#[derive(Clone, Copy, Debug)]
pub struct PathTracingIntegrator {
    pub min_bounces: u16,
    pub max_bounces: u16,
    pub russian_roulette: bool,
    pub light_samples: u16,
    pub only_direct: bool,
    pub wavelength_bounds: Bounds1D,
}


/// An estimator ready to render.
#[derive(Clone, Copy, Debug)]
pub enum Integrator {
    PathTracing(PathTracingIntegrator),
}

/// The path tracer that `settings` configure: at least 4 bounces before
/// roulette, roulette on, 4 light samples and all bounces unless set
/// otherwise, over the set wavelength bounds or the visible range.
pub open spec fn path_tracer_of(settings: RenderSettings) -> PathTracingIntegrator {
    PathTracingIntegrator {
        min_bounces: match settings.min_bounces {
            Some(n) => n,
            None => 4,
        },
        max_bounces: settings.max_bounces->0,
        russian_roulette: match settings.russian_roulette {
            Some(b) => b,
            None => true,
        },
        light_samples: match settings.light_samples {
            Some(n) => n,
            None => 4,
        },
        only_direct: match settings.only_direct {
            Some(b) => b,
            None => false,
        },
        wavelength_bounds: match settings.wavelength_bounds {
            Some((lower, upper)) => Bounds1D { lower, upper },
            None => Bounds1D { lower: VISIBLE_LOWER, upper: VISIBLE_UPPER },
        },
    }
}

impl Integrator {
    /// The estimator for `integrator_type` under `settings`; every type is
    /// served by the path tracer. The settings must give the bounce limit
    /// and, if they set wavelength bounds, a non-empty range.
    pub fn from_settings_and_world(integrator_type: IntegratorType, settings: &RenderSettings) -> (r:
        Option<Integrator>)
        requires
            settings.max_bounces is Some,
            settings.wavelength_bounds matches Some((lower, upper)) ==> lower < upper,
        ensures
            r == Some(Integrator::PathTracing(path_tracer_of(*settings))),
    {
        let (lower, upper) = match settings.wavelength_bounds {
            Some(b) => b,
            None => (VISIBLE_LOWER, VISIBLE_UPPER),
        };
        let integrator = PathTracingIntegrator {
            min_bounces: match settings.min_bounces {
                Some(n) => n,
                None => 4,
            },
            max_bounces: settings.max_bounces.unwrap(),
            russian_roulette: match settings.russian_roulette {
                Some(b) => b,
                None => true,
            },
            light_samples: match settings.light_samples {
                Some(n) => n,
                None => 4,
            },
            only_direct: match settings.only_direct {
                Some(b) => b,
                None => false,
            },
            wavelength_bounds: Bounds1D { lower, upper },
        };
        Some(Integrator::PathTracing(integrator))
    }
}

} // verus!
