//! The reasons an analytics input is refused.
use crate::float_bits::FloatBits;
use vstd::prelude::*;

verus! {

/// Which kind of rule base is missing its rules.
#[derive(Debug, Clone, Copy, PartialEq, Eq, Structural)]
pub enum RuleBase {
    Fuzzy,
    Sugeno,
    Tsukamoto,
}

/// Why an input was refused. Every variant is an invalid-input refusal; the
/// fields carry what the refusal names.
#[derive(Debug, Clone, PartialEq)]
pub enum InputError {
    // ── series and record shapes ──
    /// At least one value required.
    NoValues,
    /// Labels length must match values length.
    LabelsLengthMismatch,
    /// At least one record required.
    NoRecords,
    /// k must be >= 1.
    KZero,
    /// k cannot exceed number of records.
    KExceedsRecords,
    /// max_iterations must be >= 1.
    ZeroMaxIterations,
    /// Records must have at least one feature.
    RecordsWithoutFeatures,
    /// Record `index` has `found` features, `expected` expected.
    RecordDimension { index: usize, found: usize, expected: usize },
    /// At least one weight (feature) required.
    NoWeights,
    /// At least one item required.
    NoItems,
    /// At least one criterion required.
    NoCriteria,
    /// The direction flags do not match the number of weights.
    DirectionCount { found: usize, expected: usize },
    /// All weights must be >= 0.
    NegativeWeight,
    /// Item `index` has `found` scores, `expected` expected.
    ItemScoreCount { index: usize, found: usize, expected: usize },
    /// top_k must be >= 1.
    TopKZero,
    /// At least 2 historical values required.
    TooFewHistoricalValues,
    /// Horizon must be >= 1.
    ZeroHorizon,
    /// Alpha (smoothing factor) must be in [0.0, 1.0].
    AlphaOutOfRange,
    /// At least 2 items required for similarity.
    TooFewSimilarityItems,
    /// Items must have at least one feature.
    ItemsWithoutFeatures,
    /// Item `index` has `found` features, `expected` expected.
    ItemFeatureCount { index: usize, found: usize, expected: usize },
    /// At least 3 values required for trend detection.
    TooFewTrendValues,
    /// Window must be >= 2.
    WindowTooSmall,
    /// Window cannot exceed number of values.
    WindowExceedsValues,
    /// Sensitivity must be positive.
    NonPositiveSensitivity,
    /// Percentile `index` lies outside [0, 100].
    PercentileOutOfRange { index: usize, percentile: FloatBits },
    /// At least two classes required.
    TooFewClasses,
    /// At least one feature required.
    NoFeatures,
    /// The prior of `class` is not positive.
    NonPositivePrior { class: String },
    /// `class` has `found` feature parameters, `expected` expected.
    FeatureParamCount { class: String, found: usize, expected: usize },
    /// Feature `feature` of `class` has a standard deviation that is not positive.
    NonPositiveStdDev { class: String, feature: usize },
    /// Feature `feature` of `class` has a non-finite parameter.
    NonFiniteParams { class: String, feature: usize },
    // ── bounded numbers ──
    /// The value lies outside [0.0, 1.0].
    OutsideUnitInterval { value: FloatBits },
    /// The value is not above 0.0.
    NotPositive { value: FloatBits },
    // ── fuzzy rule bases ──
    /// At least one crisp input is required.
    NoCrispInputs,
    /// At least one linguistic variable is required.
    NoVariables,
    /// At least one rule of the base is required.
    NoRules { base: RuleBase },
    /// Input names must be non-empty and values must be finite.
    InvalidCrispInput,
    /// Linguistic variable names must be non-empty.
    BlankVariableName,
    /// Duplicate linguistic variable `name`.
    DuplicateVariable { name: String },
    /// Linguistic variable `name` must define at least one set.
    VariableWithoutSets { name: String },
    /// Variable `variable` has an empty set name.
    BlankSetName { variable: String },
    /// Duplicate set `set` on variable `variable`.
    DuplicateSet { set: String, variable: String },
    /// Membership function bounds must be finite.
    NonFiniteBounds,
    /// Triangular membership requires min < peak < max.
    TriangularOrder,
    /// Trapezoidal membership requires min < lower_peak <= upper_peak < max.
    TrapezoidalOrder,
    /// Shoulder membership requires start < end.
    ShoulderOrder,
    /// Gaussian membership requires sigma > 0.
    NonPositiveSigma,
    /// Input variable `name` is not defined.
    UndefinedInputVariable { name: String },
    /// Rule `rule` (its position) has an empty id.
    BlankRuleId { rule: usize },
    /// The weight of rule `rule` must be finite and in [0, 1].
    RuleWeight { rule: usize },
    /// Unknown variable `name`.
    UnknownVariable { name: String },
    /// Unknown set `set` on variable `variable`.
    UnknownSet { set: String, variable: String },
    /// Antecedent variable `variable` has no crisp input.
    MissingCrispInput { variable: String },
    /// And/or expressions require at least one term.
    EmptyTerms,
    /// Rule `rule` produced a consequent value that is not finite.
    NonFiniteConsequent { rule: usize },
    /// No membership of `variable` in `set` was evaluated.
    MembershipUnavailable { variable: String, set: String },
    /// A Sugeno constant must be finite.
    NonFiniteConstant,
    /// A Sugeno linear intercept must be finite.
    NonFiniteIntercept,
    /// Sugeno coefficient names must be non-empty.
    BlankCoefficientName,
    /// Sugeno coefficient `name` must be finite.
    NonFiniteCoefficient { name: String },
    /// A Sugeno linear consequent references unknown input `name`.
    UnknownCoefficientInput { name: String },
    /// The consequent of rule `rule` references unknown variable `variable`.
    ConsequentUnknownVariable { rule: usize, variable: String },
    /// The consequent of rule `rule` references unknown set `set` on `variable`.
    ConsequentUnknownSet { rule: usize, set: String, variable: String },
    /// The consequent of rule `rule` uses a non-monotonic membership function.
    NonMonotonicConsequent { rule: usize, variable: String, set: String },
    /// An inverse target must be a finite membership in [0, 1].
    InverseTarget,
    /// The inverse is only defined for monotonic membership functions.
    InverseNotMonotonic,
    // ── training pipeline ──
    /// The dataset has fewer rows than a split needs.
    DatasetTooSmall,
    // ── features and files ──
    /// The feature data length does not match the shape.
    ShapeMismatch { len: usize, rows: usize, cols: usize },
    /// The file extension names no supported format.
    UnsupportedFormat { extension: String },
}

} // verus!
