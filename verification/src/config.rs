//! Validated detection options and the run plan derived from external flags.

use vstd::prelude::*;

verus! {

/// Upper bound (exclusive) for the relative-distance threshold, in
/// micro-units: 990_000 micro-units stand for 0.99.
pub const MAX_DISTANCE_MICRO: i64 = 990_000;

/// Error raised while validating detection options. The payload is the
/// offending raw distance, in micro-units.
#[derive(Debug, Clone, Copy, PartialEq)]
pub enum LangDetectErr {
    TooSmallDistance(i64),
    TooGreatDistance(i64),
}

/// The candidate set of languages the detection engine considers.
#[derive(Debug, Clone, Copy, PartialEq)]
pub enum LanguageUniverse {
    All,
    SpokenOnly,
}

/// The validated set of detection options. The distance threshold, when
/// present, is a value in micro-units within `[0, MAX_DISTANCE_MICRO)`.
#[derive(Debug, Clone, Copy)]
pub struct Config {
    pub minimum_relative_distance: Option<i64>,
    pub enable_low_accuracy_mode: bool,
    pub enable_preload: bool,
}

impl Config {
    /// A stored distance threshold is always within its domain.
    pub open spec fn wf(self) -> bool {
        match self.minimum_relative_distance {
            Some(v) => 0 <= v < MAX_DISTANCE_MICRO,
            None => true,
        }
    }

    pub open spec fn spec_default() -> Config {
        Config {
            minimum_relative_distance: None,
            enable_low_accuracy_mode: false,
            enable_preload: false,
        }
    }

    pub open spec fn spec_with_low_accuracy(self) -> Config {
        Config { enable_low_accuracy_mode: true, ..self }
    }

    pub open spec fn spec_with_preload(self) -> Config {
        Config { enable_preload: true, ..self }
    }

    /// Validates a raw distance threshold and stores it when it lies in
    /// `[0, MAX_DISTANCE_MICRO)`; values outside are rejected and never
    /// stored.
    pub fn with_min_rel_dist(self, raw_dist: i64) -> (r: Result<Config, LangDetectErr>)
        ensures
            raw_dist < 0 ==> r == Err::<Config, LangDetectErr>(
                LangDetectErr::TooSmallDistance(raw_dist),
            ),
            raw_dist >= MAX_DISTANCE_MICRO ==> r == Err::<Config, LangDetectErr>(
                LangDetectErr::TooGreatDistance(raw_dist),
            ),
            0 <= raw_dist < MAX_DISTANCE_MICRO ==> r == Ok::<Config, LangDetectErr>(
                (Config { minimum_relative_distance: Some(raw_dist), ..self }),
            ),
            r is Ok ==> r->Ok_0.wf(),
    {
        if raw_dist < 0 {
            return Err(LangDetectErr::TooSmallDistance(raw_dist));
        }
        if raw_dist >= MAX_DISTANCE_MICRO {
            return Err(LangDetectErr::TooGreatDistance(raw_dist));
        }
        Ok(Config { minimum_relative_distance: Some(raw_dist), ..self })
    }

    /// Turns low-accuracy mode on; all other options are kept.
    pub fn disable_high_accuracy_mode(self) -> (r: Config)
        ensures
            r == self.spec_with_low_accuracy(),
    {
        Config { enable_low_accuracy_mode: true, ..self }
    }

    /// Turns eager model loading on; all other options are kept.
    pub fn disable_lazy_load(self) -> (r: Config)
        ensures
            r == self.spec_with_preload(),
    {
        Config { enable_preload: true, ..self }
    }
}

impl Default for Config {
    /// No distance threshold, lazy loading, high accuracy.
    fn default() -> (r: Config)
        ensures
            r == Config::spec_default(),
    {
        Config {
            minimum_relative_distance: None,
            enable_low_accuracy_mode: false,
            enable_preload: false,
        }
    }
}

/// Enabling low-accuracy mode any number of times yields the same
/// configuration as enabling it once.
pub proof fn lemma_low_accuracy_idempotent(c: Config)
    ensures
        c.spec_with_low_accuracy().spec_with_low_accuracy() == c.spec_with_low_accuracy(),
{
}

/// Enabling preload any number of times yields the same configuration as
/// enabling it once.
pub proof fn lemma_preload_idempotent(c: Config)
    ensures
        c.spec_with_preload().spec_with_preload() == c.spec_with_preload(),
{
}

/// Neither setter disturbs a stored distance threshold or the other flag.
pub proof fn lemma_setters_commute(c: Config)
    ensures
        c.spec_with_low_accuracy().spec_with_preload() == c.spec_with_preload().spec_with_low_accuracy(),
{
}

/// Everything the run needs once the external flags are bound: the
/// validated options and the chosen language universe.
#[derive(Debug, Clone, Copy)]
pub struct RunPlan {
    pub config: Config,
    pub universe: LanguageUniverse,
}

pub open spec fn spec_universe(spoken_language_only: bool) -> LanguageUniverse {
    if spoken_language_only {
        LanguageUniverse::SpokenOnly
    } else {
        LanguageUniverse::All
    }
}

/// Binds external flags to a run plan. The distance threshold is validated
/// exactly as `Config::with_min_rel_dist` does; an out-of-domain value
/// fails the whole plan and nothing else is decided.
pub fn plan_from_flags(
    minimum_relative_distance: Option<i64>,
    low_accuracy_mode: bool,
    preload: bool,
    spoken_language_only: bool,
) -> (r: Result<RunPlan, LangDetectErr>)
    ensures
        (match minimum_relative_distance {
            Some(d) => {
                &&& d < 0 ==> r == Err::<RunPlan, LangDetectErr>(
                    LangDetectErr::TooSmallDistance(d),
                )
                &&& d >= MAX_DISTANCE_MICRO ==> r == Err::<RunPlan, LangDetectErr>(
                    LangDetectErr::TooGreatDistance(d),
                )
                &&& 0 <= d < MAX_DISTANCE_MICRO ==> r == Ok::<RunPlan, LangDetectErr>(
                    (RunPlan {
                        config: Config {
                            minimum_relative_distance: Some(d),
                            enable_low_accuracy_mode: low_accuracy_mode,
                            enable_preload: preload,
                        },
                        universe: spec_universe(spoken_language_only),
                    }),
                )
            },
            None => r == Ok::<RunPlan, LangDetectErr>(
                (RunPlan {
                    config: Config {
                        minimum_relative_distance: None,
                        enable_low_accuracy_mode: low_accuracy_mode,
                        enable_preload: preload,
                    },
                    universe: spec_universe(spoken_language_only),
                }),
            ),
        }),
        r matches Ok(plan) ==> plan.config.wf(),
{
    let mut cfg = Config::default();
    if let Some(d) = minimum_relative_distance {
        cfg = match cfg.with_min_rel_dist(d) {
            Ok(c) => c,
            Err(e) => {
                return Err(e);
            },
        };
    }
    if low_accuracy_mode {
        cfg = cfg.disable_high_accuracy_mode();
    }
    if preload {
        cfg = cfg.disable_lazy_load();
    }
    let universe = if spoken_language_only {
        LanguageUniverse::SpokenOnly
    } else {
        LanguageUniverse::All
    };
    Ok(RunPlan { config: cfg, universe })
}

} // verus!
