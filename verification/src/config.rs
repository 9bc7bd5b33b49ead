//! Operational parameters: defaults, the values that override them, and the
//! rules a set of values must meet before anything is served.

use vstd::prelude::*;
use vstd::string::*;

verus! {

/// Largest drop probability, which stands for certainty. Probabilities are
/// held in millionths so that bounds compare exactly.
pub const DROP_SCALE: u32 = 1_000_000;

/// Bounds within which a network-degradation simulator may pick its
/// disconnect lengths, the pauses between two breaks, and its drop
/// probability. Nothing in this crate acts on them; they are validated and
/// carried.
#[derive(Clone, Copy, Debug, PartialEq, Eq, Structural)]
pub struct FaultInjection {
    pub min_disconnect_seconds: u64,
    pub max_disconnect_seconds: u64,
    pub min_break_interval_seconds: u64,
    pub max_break_interval_seconds: u64,
    /// In millionths.
    pub min_drop_probability: u32,
    /// In millionths.
    pub max_drop_probability: u32,
}

impl FaultInjection {
    /// Every range has its lower bound at or below its upper bound, and no
    /// probability exceeds certainty.
    pub open spec fn valid(self) -> bool {
        &&& self.min_disconnect_seconds <= self.max_disconnect_seconds
        &&& self.min_break_interval_seconds <= self.max_break_interval_seconds
        &&& self.max_drop_probability <= DROP_SCALE
        &&& self.min_drop_probability <= self.max_drop_probability
    }

    /// The bounds used where the environment names none: disconnects and
    /// break intervals of 10 to 30 seconds, drop probability 0.05 to 0.9.
    pub open spec fn standard() -> FaultInjection {
        FaultInjection {
            min_disconnect_seconds: 10,
            max_disconnect_seconds: 30,
            min_break_interval_seconds: 10,
            max_break_interval_seconds: 30,
            min_drop_probability: 50_000,
            max_drop_probability: 900_000,
        }
    }
}

impl Default for FaultInjection {
    fn default() -> (r: FaultInjection)
        ensures
            r == FaultInjection::standard(),
    {
        FaultInjection {
            min_disconnect_seconds: 10,
            max_disconnect_seconds: 30,
            min_break_interval_seconds: 10,
            max_break_interval_seconds: 30,
            min_drop_probability: 50_000,
            max_drop_probability: 900_000,
        }
    }
}

/// Why a set of values cannot become a configuration.
#[derive(Clone, Copy, Debug, PartialEq, Eq, Structural)]
pub enum ConfigError {
    /// The port is 0 or above 65535.
    PortOutOfRange,
    /// The stream-path prefix is empty.
    EmptyPrefix,
    /// The shortest disconnect is longer than the longest.
    DisconnectBounds,
    /// The shortest break interval is longer than the longest.
    BreakIntervalBounds,
    /// The highest drop probability is above 1.
    DropProbabilityOutOfRange,
    /// The lowest drop probability is above the highest.
    DropProbabilityBounds,
}

impl ConfigError {
    /// A line for the operator.
    pub fn message(&self) -> (r: &'static str)
        ensures
            r@ == match *self {
                ConfigError::PortOutOfRange => "port must lie between 1 and 65535"@,
                ConfigError::EmptyPrefix => "stream path prefix must not be empty"@,
                ConfigError::DisconnectBounds => "minimum disconnect time exceeds the maximum"@,
                ConfigError::BreakIntervalBounds => "minimum break interval exceeds the maximum"@,
                ConfigError::DropProbabilityOutOfRange => "drop probability exceeds 1"@,
                ConfigError::DropProbabilityBounds => "minimum drop probability exceeds the maximum"@,
            },
    {
        match self {
            ConfigError::PortOutOfRange => "port must lie between 1 and 65535",
            ConfigError::EmptyPrefix => "stream path prefix must not be empty",
            ConfigError::DisconnectBounds => "minimum disconnect time exceeds the maximum",
            ConfigError::BreakIntervalBounds => "minimum break interval exceeds the maximum",
            ConfigError::DropProbabilityOutOfRange => "drop probability exceeds 1",
            ConfigError::DropProbabilityBounds => "minimum drop probability exceeds the maximum",
        }
    }
}

/// The values found in the environment, already typed. A field is `None`
/// where the environment does not name it.
#[derive(Clone, Debug)]
pub struct Overrides {
    pub port: Option<u64>,
    pub prefix: Option<String>,
    pub shared: Option<bool>,
    pub infinite: Option<bool>,
    pub min_disconnect_seconds: Option<u64>,
    pub max_disconnect_seconds: Option<u64>,
    pub min_break_interval_seconds: Option<u64>,
    pub max_break_interval_seconds: Option<u64>,
    /// In millionths.
    pub min_drop_probability: Option<u32>,
    /// In millionths.
    pub max_drop_probability: Option<u32>,
}

/// What an `Overrides` holds, with text as a sequence of characters.
pub struct OverridesView {
    pub port: Option<u64>,
    pub prefix: Option<Seq<char>>,
    pub shared: Option<bool>,
    pub infinite: Option<bool>,
    pub min_disconnect_seconds: Option<u64>,
    pub max_disconnect_seconds: Option<u64>,
    pub min_break_interval_seconds: Option<u64>,
    pub max_break_interval_seconds: Option<u64>,
    pub min_drop_probability: Option<u32>,
    pub max_drop_probability: Option<u32>,
}

impl OverridesView {
    /// No field is named.
    pub open spec fn nothing() -> OverridesView {
        OverridesView {
            port: None,
            prefix: None,
            shared: None,
            infinite: None,
            min_disconnect_seconds: None,
            max_disconnect_seconds: None,
            min_break_interval_seconds: None,
            max_break_interval_seconds: None,
            min_drop_probability: None,
            max_drop_probability: None,
        }
    }
}

impl View for Overrides {
    type V = OverridesView;

    open spec fn view(&self) -> OverridesView {
        OverridesView {
            port: self.port,
            prefix: match self.prefix {
                Some(p) => Some(p@),
                None => None,
            },
            shared: self.shared,
            infinite: self.infinite,
            min_disconnect_seconds: self.min_disconnect_seconds,
            max_disconnect_seconds: self.max_disconnect_seconds,
            min_break_interval_seconds: self.min_break_interval_seconds,
            max_break_interval_seconds: self.max_break_interval_seconds,
            min_drop_probability: self.min_drop_probability,
            max_drop_probability: self.max_drop_probability,
        }
    }
}

impl Overrides {
    /// The overrides of an environment that names nothing.
    pub fn new() -> (r: Overrides)
        ensures
            r@ == OverridesView::nothing(),
    {
        Overrides {
            port: None,
            prefix: None,
            shared: None,
            infinite: None,
            min_disconnect_seconds: None,
            max_disconnect_seconds: None,
            min_break_interval_seconds: None,
            max_break_interval_seconds: None,
            min_drop_probability: None,
            max_drop_probability: None,
        }
    }
}

/// The parameters the server runs with.
#[derive(Clone, Debug)]
pub struct MobiusConfig {
    pub port: u16,
    pub prefix: String,
    pub shared: bool,
    pub infinite: bool,
    pub fault_injection: FaultInjection,
}

/// A set of parameter values, valid or not.
pub struct ConfigView {
    pub port: int,
    pub prefix: Seq<char>,
    pub shared: bool,
    pub infinite: bool,
    pub fault_injection: FaultInjection,
}

impl ConfigView {
    /// The first rule that the values break, if any. The rules are taken in
    /// the order port, prefix, disconnect bounds, break-interval bounds,
    /// drop-probability range, drop-probability bounds.
    pub open spec fn rejection(self) -> Option<ConfigError> {
        if !(1 <= self.port <= 65535) {
            Some(ConfigError::PortOutOfRange)
        } else if self.prefix.len() == 0 {
            Some(ConfigError::EmptyPrefix)
        } else if self.fault_injection.min_disconnect_seconds
            > self.fault_injection.max_disconnect_seconds {
            Some(ConfigError::DisconnectBounds)
        } else if self.fault_injection.min_break_interval_seconds
            > self.fault_injection.max_break_interval_seconds {
            Some(ConfigError::BreakIntervalBounds)
        } else if self.fault_injection.max_drop_probability > DROP_SCALE {
            Some(ConfigError::DropProbabilityOutOfRange)
        } else if self.fault_injection.min_drop_probability
            > self.fault_injection.max_drop_probability {
            Some(ConfigError::DropProbabilityBounds)
        } else {
            None
        }
    }

    /// The port lies in 1..=65535, the prefix is not empty, and the
    /// fault-injection bounds are valid.
    pub open spec fn valid(self) -> bool {
        &&& 1 <= self.port <= 65535
        &&& self.prefix.len() > 0
        &&& self.fault_injection.valid()
    }

    /// The values that apply where the environment names nothing.
    pub open spec fn standard() -> ConfigView {
        ConfigView {
            port: 8554,
            prefix: "mobius-stream"@,
            shared: true,
            infinite: true,
            fault_injection: FaultInjection::standard(),
        }
    }
}

/// The values that result from `overrides`: each field that is named, and
/// the default for each that is not.
pub open spec fn resolve(overrides: OverridesView) -> ConfigView {
    let standard = ConfigView::standard();
    let faults = standard.fault_injection;
    ConfigView {
        port: match overrides.port {
            Some(p) => p as int,
            None => standard.port,
        },
        prefix: match overrides.prefix {
            Some(p) => p,
            None => standard.prefix,
        },
        shared: match overrides.shared {
            Some(s) => s,
            None => standard.shared,
        },
        infinite: match overrides.infinite {
            Some(i) => i,
            None => standard.infinite,
        },
        fault_injection: FaultInjection {
            min_disconnect_seconds: match overrides.min_disconnect_seconds {
                Some(v) => v,
                None => faults.min_disconnect_seconds,
            },
            max_disconnect_seconds: match overrides.max_disconnect_seconds {
                Some(v) => v,
                None => faults.max_disconnect_seconds,
            },
            min_break_interval_seconds: match overrides.min_break_interval_seconds {
                Some(v) => v,
                None => faults.min_break_interval_seconds,
            },
            max_break_interval_seconds: match overrides.max_break_interval_seconds {
                Some(v) => v,
                None => faults.max_break_interval_seconds,
            },
            min_drop_probability: match overrides.min_drop_probability {
                Some(v) => v,
                None => faults.min_drop_probability,
            },
            max_drop_probability: match overrides.max_drop_probability {
                Some(v) => v,
                None => faults.max_drop_probability,
            },
        },
    }
}

impl View for MobiusConfig {
    type V = ConfigView;

    open spec fn view(&self) -> ConfigView {
        ConfigView {
            port: self.port as int,
            prefix: self.prefix@,
            shared: self.shared,
            infinite: self.infinite,
            fault_injection: self.fault_injection,
        }
    }
}

/// The port served where none is named.
pub fn default_port() -> (r: u16)
    ensures
        r == ConfigView::standard().port,
{
    8554
}

/// The stream-path prefix used where none is named.
pub fn prefix() -> (r: &'static str)
    ensures
        r@ == ConfigView::standard().prefix,
{
    "mobius-stream"
}

/// Whether clients share one running pipeline where nothing is named.
pub fn shared() -> (r: bool)
    ensures
        r == ConfigView::standard().shared,
{
    true
}

/// Whether streams loop over prepared segments where nothing is named.
pub fn infinite() -> (r: bool)
    ensures
        r == ConfigView::standard().infinite,
{
    true
}

fn or_u64(value: Option<u64>, fallback: u64) -> (r: u64)
    ensures
        r == match value {
            Some(v) => v,
            None => fallback,
        },
{
    match value {
        Some(v) => v,
        None => fallback,
    }
}

fn or_u32(value: Option<u32>, fallback: u32) -> (r: u32)
    ensures
        r == match value {
            Some(v) => v,
            None => fallback,
        },
{
    match value {
        Some(v) => v,
        None => fallback,
    }
}

fn or_bool(value: Option<bool>, fallback: bool) -> (r: bool)
    ensures
        r == match value {
            Some(v) => v,
            None => fallback,
        },
{
    match value {
        Some(v) => v,
        None => fallback,
    }
}

impl MobiusConfig {
    /// Builds the configuration from what the environment names, filling in
    /// the default for every field it does not name. The result is the
    /// resolved set of values if it breaks no rule, and otherwise the first
    /// rule broken.
    pub fn new(overrides: Overrides) -> (r: Result<MobiusConfig, ConfigError>)
        ensures
            match r {
                Ok(config) => {
                    &&& resolve(overrides@).rejection() is None
                    &&& config@ == resolve(overrides@)
                    &&& config@.valid()
                },
                Err(error) => resolve(overrides@).rejection() == Some(error),
            },
    {
        let standard = FaultInjection::default();
        let port: u64 = match overrides.port {
            Some(p) => p,
            None => 8554,
        };
        let prefix: String = match overrides.prefix {
            Some(p) => p,
            None => String::from_str(self::prefix()),
        };
        let fault_injection = FaultInjection {
            min_disconnect_seconds: or_u64(
                overrides.min_disconnect_seconds,
                standard.min_disconnect_seconds,
            ),
            max_disconnect_seconds: or_u64(
                overrides.max_disconnect_seconds,
                standard.max_disconnect_seconds,
            ),
            min_break_interval_seconds: or_u64(
                overrides.min_break_interval_seconds,
                standard.min_break_interval_seconds,
            ),
            max_break_interval_seconds: or_u64(
                overrides.max_break_interval_seconds,
                standard.max_break_interval_seconds,
            ),
            min_drop_probability: or_u32(
                overrides.min_drop_probability,
                standard.min_drop_probability,
            ),
            max_drop_probability: or_u32(
                overrides.max_drop_probability,
                standard.max_drop_probability,
            ),
        };
        let shared = or_bool(overrides.shared, self::shared());
        let infinite = or_bool(overrides.infinite, self::infinite());
        if port < 1 || port > 65535 {
            return Err(ConfigError::PortOutOfRange);
        }
        if prefix.as_str().unicode_len() == 0 {
            return Err(ConfigError::EmptyPrefix);
        }
        if fault_injection.min_disconnect_seconds > fault_injection.max_disconnect_seconds {
            return Err(ConfigError::DisconnectBounds);
        }
        if fault_injection.min_break_interval_seconds
            > fault_injection.max_break_interval_seconds {
            return Err(ConfigError::BreakIntervalBounds);
        }
        if fault_injection.max_drop_probability > DROP_SCALE {
            return Err(ConfigError::DropProbabilityOutOfRange);
        }
        if fault_injection.min_drop_probability > fault_injection.max_drop_probability {
            return Err(ConfigError::DropProbabilityBounds);
        }
        Ok(MobiusConfig { port: port as u16, prefix, shared, infinite, fault_injection })
    }
}

/// Values that break no rule are exactly the valid ones.
pub proof fn lemma_rejection_none_iff_valid(values: ConfigView)
    ensures
        values.rejection() is None <==> values.valid(),
{
}

/// An environment that names nothing is never refused: the defaults are
/// valid.
pub proof fn lemma_defaults_accepted()
    ensures
        resolve(OverridesView::nothing()) == ConfigView::standard(),
        ConfigView::standard().rejection() is None,
{
    reveal_strlit("mobius-stream");
}

} // verus!
