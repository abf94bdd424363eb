//! What can go wrong, told apart by what was found.
use crate::time::Time;
use vstd::prelude::*;

verus! {

/// The outcome of an operation that can fail.
pub type KeteResult<T> = Result<T, Error>;

/// Why an operation failed.
#[derive(Debug, Clone, Copy, PartialEq)]
pub enum Error {
    /// A numerical method failed to converge.
    Convergence(ConvergenceFault),
    /// Inputs which do not make sense.
    ValueError(ValueFault),
    /// Values out of the range where something is known.
    Bounds,
    /// Bytes which cannot be read.
    IOError(IoFault),
    /// The object ran into the body with this id at this time.
    Impact(i32, Time),
    /// A reference frame which is not known, by its id.
    UnknownFrame(i32),
    /// Not enough memory.
    OutOfMemory,
    /// A shared resource could not be locked.
    LockFailed,
}

/// Why bytes cannot be read.
#[derive(Debug, Clone, Copy, PartialEq, Eq, Structural)]
pub enum IoFault {
    /// The input ended before the value did.
    UnexpectedEnd,
    /// No character has this number.
    InvalidChar(u32),
    /// A truth value is neither 0 nor 1.
    InvalidBool(u8),
    /// The tag of an optional value is neither 0 nor 1.
    InvalidOptionTag(u8),
    /// The bytes of a text are not UTF-8.
    InvalidUtf8,
    /// No designation has this tag.
    UnknownDesigTag(u8),
    /// No PTF filter has this tag.
    InvalidPtfFilterTag(u8),
    /// No Spitzer band has this tag.
    InvalidSpitzerBandTag(u8),
    /// No field of view has this tag.
    UnknownFovTag,
    /// The header of an entry contradicts the states in it.
    HeaderMismatch,
    /// The file does not start with the magic bytes.
    BadMagic,
    /// The file was written in this later version of the format.
    NewerVersion(u16),
    /// The file declares content of this kind, which is not known.
    UnsupportedContent(u8),
    /// A row of the table of masses has too few fields.
    BadMassRow,
    /// A table has no place for a field of view.
    FovInTable,
}

/// Why a method did not converge.
#[derive(Debug, Clone, Copy, PartialEq, Eq, Structural)]
pub enum ConvergenceFault {
    /// Too many steps in a row failed.
    StepsFailed,
    /// One step did not settle.
    StepFailed,
}

/// Why inputs do not make sense.
#[derive(Debug, Clone, Copy, PartialEq, Eq, Structural)]
pub enum ValueFault {
    /// Only a NAIF id can trade places with a center.
    FlipNeedsNaif,
    /// Two states are not at the same time.
    EpochMismatch,
    /// A new center has to be given by a NAIF id.
    CenterNeedsNaif,
    /// Two states have neither a center nor an id in common.
    UnrelatedStates,
    /// A state was expected around one center and is around another.
    WrongCenter {
        /// The center which was expected.
        expected: i32,
        /// The center which was found.
        found: i32,
    },
    /// A collection of simultaneous states has no state.
    NoStates,
    /// States of one collection have different centers.
    MixedCenters,
    /// States of one collection have different times.
    MixedEpochs,
    /// Two vectors which belong together have different lengths.
    LengthMismatch,
    /// A covariance is not of the right size.
    CovarianceShape {
        /// How many rows and columns there should be.
        size: usize,
        /// How many rows there are.
        rows: usize,
        /// How many columns there are.
        columns: usize,
    },
    /// A covariance is not positive semidefinite.
    Indefinite,
    /// A mixture has no component.
    NoComponents,
    /// A mixture has not as many weights as components.
    WeightCount {
        /// How many weights there are.
        weights: usize,
        /// How many components there are.
        components: usize,
    },
    /// A weight is negative or not finite.
    BadWeight,
    /// The weights do not sum to one.
    WeightSum,
    /// The epoch of this component is not that of the first one.
    ComponentEpoch(usize),
    /// The center of this component is not that of the first one.
    ComponentCenter(usize),
    /// The covariance of this component is not as large as that of the first one.
    ComponentSize(usize),
    /// No component weighs enough.
    AllPruned,
    /// The weights which are left sum to zero.
    NoWeightLeft,
    /// A covariance has no positive eigenvalue.
    NoPositiveEigenvalue,
    /// A direction has not as many components as the covariance has rows.
    DirectionLength {
        /// How many components the direction has.
        length: usize,
        /// How many rows the covariance has.
        size: usize,
    },
    /// A direction is zero or not finite.
    BadDirection,
    /// There is no variance along a direction.
    NoVariance,
    /// A covariance is not positive definite after a split.
    SplitIndefinite,
    /// A mixture has no component of this number.
    NoSuchComponent {
        /// The number.
        index: usize,
        /// How many components there are.
        count: usize,
    },
    /// No eigenvector is to be tested.
    NoAxes,
    /// The distance from the mean is not positive or not finite.
    BadSigmaFactor,
    /// The threshold for a split is negative or not finite.
    BadSplitThreshold,
    /// A mixture has more components than there may be.
    TooManyComponents {
        /// How many there may be.
        most: usize,
        /// How many there are.
        count: usize,
    },
    /// A matrix has no inverse.
    Singular,
    /// No body with this NAIF id is known.
    UnknownMass(i32),
    /// The albedo is negative or not finite.
    BadAlbedo,
    /// The absorptivity is negative or not finite.
    BadAbsorptivity,
    /// The flattening is negative or not finite.
    BadFlattening,
    /// The flattening is larger than one.
    FlatteningAboveOne,
    /// The spin pole is zero or not finite.
    BadSpinPole,
    /// A mask does not have one entry for each parameter.
    MaskLength {
        /// How many there should be.
        needed: usize,
        /// How many there are.
        given: usize,
    },
    /// A force was given the wrong number of parameters.
    ParamCount {
        /// How many there should be.
        needed: usize,
        /// How many there are.
        given: usize,
    },
    /// A model of forces is made by the function for its kind.
    NeedsFactory,
    /// Neither `beta` nor the diameter of a grain of dust is given.
    NoDustSize,
    /// Both `beta` and the diameter of a grain of dust are given.
    TwoDustSizes,
    /// An uncertainty on the sky is zero or negative.
    BadSkySigma,
    /// An uncertainty in time is negative.
    BadTimeSigma,
    /// A correlation is not strictly between minus one and one.
    BadCorrelation,
    /// An uncertainty of a range is zero or negative.
    BadRangeSigma,
    /// An uncertainty of a range rate is zero or negative.
    BadRateSigma,
    /// An uncertainty of a position or velocity is zero or negative.
    BadSpread,
    /// A row of a covariance is not as long as there are rows.
    CovarianceRow {
        /// Which row.
        row: usize,
        /// How many entries it has.
        entries: usize,
        /// How many rows there are.
        total: usize,
    },
    /// The forces on this component are not of the kind of those on the first one.
    ComponentForce(usize),
    /// There is no state to measure a distance from.
    NoFirstStates,
    /// There are not as many models of forces as states.
    NonGravCount {
        /// How many models there are.
        models: usize,
        /// How many states there are.
        states: usize,
    },
    /// A state has a position, velocity or time which is not finite.
    NanState,
    /// There is no state of this number.
    NoSuchState,
    /// There are not as many times as states.
    UpdateCount,
    /// There is no field of view to see something in.
    NoFov,
    /// An object has no covariance to sample.
    NoCovariance,
    /// No response of the service was kept.
    NoResponse,
    /// More components are to decide about convergence than there are.
    ControlDim {
        /// How many are to decide.
        control: usize,
        /// How many there are.
        dim: usize,
    },
}

} // verus!
