//! Fields of view: what an observer sees of the sky at one moment.
use crate::float::{F32, F64};
use crate::frames::{Equatorial, Vector};
use crate::state::State;
use vstd::prelude::*;

verus! {

/// A rectangle on the sky, given by the planes through its edges.
#[derive(Debug, Clone, Copy)]
pub struct OnSkyRectangle {
    /// Normals of the four planes, which point to the inside.
    pub edge_normals: [Vector<Equatorial>; 4],
}

impl OnSkyRectangle {
    /// The rectangle whose edges have these normals.
    pub fn from_normals(edge_normals: [Vector<Equatorial>; 4]) -> (r: Self)
        ensures
            r.edge_normals == edge_normals,
    {
        OnSkyRectangle { edge_normals }
    }
}

/// The filters of PTF.
#[derive(Debug, Clone, Copy, PartialEq, Eq, Structural)]
pub enum PTFFilter {
    /// G.
    G,
    /// R.
    R,
    /// HA656.
    HA656,
    /// HA663.
    HA663,
}

/// The bands of Spitzer.
#[derive(Debug, Clone, Copy, PartialEq, Eq, Structural)]
pub enum SpitzerBand {
    /// Irac1.
    Irac1,
    /// Irac2.
    Irac2,
    /// Irac3.
    Irac3,
    /// Irac4.
    Irac4,
    /// Mips24.
    Mips24,
    /// Mips70.
    Mips70,
    /// Mips160.
    Mips160,
    /// IrsPeakUpBlue.
    IrsPeakUpBlue,
    /// IrsPeakUpRed.
    IrsPeakUpRed,
}

/// A circle on the sky.
#[derive(Debug)]
pub struct SphericalCone {
    /// Direction of the middle.
    pub pointing: Vector<Equatorial>,
    /// Angle from the middle to the edge, in radians.
    pub angle: F64,
}

/// Everything an observer could see.
#[derive(Debug)]
pub struct OmniDirectional {
    /// The observer.
    pub observer: State<Equatorial>,
}

/// A circular field of view.
#[derive(Debug)]
pub struct GenericCone {
    /// The observer.
    pub observer: State<Equatorial>,
    /// The field.
    pub patch: SphericalCone,
}

/// A rectangular field of view.
#[derive(Debug)]
pub struct GenericRectangle {
    /// The observer.
    pub observer: State<Equatorial>,
    /// The field.
    pub patch: OnSkyRectangle,
    /// Rotation of the field, in radians.
    pub rotation: F64,
}

/// A frame of the WISE detector.
#[derive(Debug)]
pub struct WiseCmos {
    /// The observer.
    pub observer: State<Equatorial>,
    /// The field.
    pub patch: OnSkyRectangle,
    /// Number of the frame in its scan.
    pub frame_num: u64,
    /// Id of the scan.
    pub scan_id: Box<str>,
}

/// A frame of one NEOS detector.
#[derive(Debug)]
pub struct NeosCmos {
    /// The observer.
    pub observer: State<Equatorial>,
    /// The field.
    pub patch: OnSkyRectangle,
    /// Rotation of the field, in radians.
    pub rotation: F64,
    /// Side id.
    pub side_id: u16,
    /// Stack id.
    pub stack_id: u8,
    /// Quad id.
    pub quad_id: u8,
    /// Loop id.
    pub loop_id: u8,
    /// Subloop id.
    pub subloop_id: u8,
    /// Exposure id.
    pub exposure_id: u8,
    /// Band id.
    pub band: u8,
    /// Id of the detector.
    pub cmos_id: u8,
}

/// A visit of NEOS, made of its four detectors.
#[derive(Debug)]
pub struct NeosVisit {
    /// The detectors.
    pub chips: Box<[NeosCmos; 4]>,
    /// The observer.
    pub observer: State<Equatorial>,
    /// Rotation of the field, in radians.
    pub rotation: F64,
    /// Side id.
    pub side_id: u16,
    /// Stack id.
    pub stack_id: u8,
    /// Quad id.
    pub quad_id: u8,
    /// Loop id.
    pub loop_id: u8,
    /// Subloop id.
    pub subloop_id: u8,
    /// Exposure id.
    pub exposure_id: u8,
    /// Band id.
    pub band: u8,
}

/// A quadrant of one ZTF detector.
#[derive(Debug)]
pub struct ZtfCcdQuad {
    /// The observer.
    pub observer: State<Equatorial>,
    /// The field.
    pub patch: OnSkyRectangle,
    /// Field id.
    pub field: u32,
    /// Fraction of the day in the file name.
    pub filefracday: u64,
    /// Magnitude limit.
    pub maglimit: F64,
    /// Filter id.
    pub fid: u64,
    /// Filter code.
    pub filtercode: Box<str>,
    /// Image type code.
    pub imgtypecode: Box<str>,
    /// Detector id.
    pub ccdid: u8,
    /// Quadrant id.
    pub qid: u8,
}

/// A field of ZTF, made of quadrants.
#[derive(Debug)]
pub struct ZtfField {
    /// The quadrants.
    pub ccd_quads: Vec<ZtfCcdQuad>,
    /// The observer.
    pub observer: State<Equatorial>,
    /// Field id.
    pub field: u32,
    /// Filter id.
    pub fid: u64,
    /// Filter code.
    pub filtercode: Box<str>,
    /// Image type code.
    pub imgtypecode: Box<str>,
}

/// A frame of one PTF detector.
#[derive(Debug)]
pub struct PtfCcd {
    /// The observer.
    pub observer: State<Equatorial>,
    /// The field.
    pub patch: OnSkyRectangle,
    /// Field id.
    pub field: u32,
    /// Detector id.
    pub ccdid: u8,
    /// The filter.
    pub filter: PTFFilter,
    /// Name of the image file.
    pub filename: Box<str>,
    /// Quality flags.
    pub info_bits: u32,
    /// Seeing.
    pub seeing: F32,
}

/// A field of PTF, made of detectors.
#[derive(Debug)]
pub struct PtfField {
    /// The detectors.
    pub ccds: Vec<PtfCcd>,
    /// The observer.
    pub observer: State<Equatorial>,
    /// Field id.
    pub field: u32,
    /// The filter.
    pub filter: PTFFilter,
}

/// A frame of one SPHEREx detector.
#[derive(Debug)]
pub struct SpherexCmos {
    /// The observer.
    pub observer: State<Equatorial>,
    /// The field.
    pub patch: OnSkyRectangle,
    /// Where the image is.
    pub uri: Box<str>,
    /// Plane id.
    pub plane_id: Box<str>,
}

/// A field of SPHEREx, made of detectors.
#[derive(Debug)]
pub struct SpherexField {
    /// The detectors.
    pub cmos_frames: Vec<SpherexCmos>,
    /// The observer.
    pub observer: State<Equatorial>,
    /// Observation id.
    pub obsid: Box<str>,
    /// Longer observation id.
    pub observationid: Box<str>,
}

/// A frame of Spitzer.
#[derive(Debug)]
pub struct SpitzerFrame {
    /// The observer.
    pub observer: State<Equatorial>,
    /// The field.
    pub patch: OnSkyRectangle,
    /// Observation id.
    pub obs_id: Box<str>,
    /// The band.
    pub band: SpitzerBand,
    /// Where the image is.
    pub artifact_uri: Box<str>,
    /// How long the exposure took.
    pub duration: F64,
}

/// A field of view.
#[derive(Debug)]
pub enum FOV {
    /// See [`OmniDirectional`].
    OmniDirectional(OmniDirectional),
    /// See [`GenericCone`].
    GenericCone(GenericCone),
    /// See [`GenericRectangle`].
    GenericRectangle(GenericRectangle),
    /// See [`WiseCmos`].
    Wise(WiseCmos),
    /// See [`NeosCmos`].
    NeosCmos(NeosCmos),
    /// See [`NeosVisit`].
    NeosVisit(NeosVisit),
    /// See [`ZtfCcdQuad`].
    ZtfCcdQuad(ZtfCcdQuad),
    /// See [`ZtfField`].
    ZtfField(ZtfField),
    /// See [`PtfCcd`].
    PtfCcd(PtfCcd),
    /// See [`PtfField`].
    PtfField(PtfField),
    /// See [`SpherexCmos`].
    SpherexCmos(SpherexCmos),
    /// See [`SpherexField`].
    SpherexField(SpherexField),
    /// See [`SpitzerFrame`].
    Spitzer(SpitzerFrame),
}

impl FOV {
    /// Who is looking.
    pub open spec fn seen_by(self) -> State<Equatorial> {
        match self {
            FOV::OmniDirectional(f) => f.observer,
            FOV::GenericCone(f) => f.observer,
            FOV::GenericRectangle(f) => f.observer,
            FOV::Wise(f) => f.observer,
            FOV::NeosCmos(f) => f.observer,
            FOV::NeosVisit(f) => f.observer,
            FOV::ZtfCcdQuad(f) => f.observer,
            FOV::ZtfField(f) => f.observer,
            FOV::PtfCcd(f) => f.observer,
            FOV::PtfField(f) => f.observer,
            FOV::SpherexCmos(f) => f.observer,
            FOV::SpherexField(f) => f.observer,
            FOV::Spitzer(f) => f.observer,
        }
    }

    /// Who is looking.
    pub fn observer(&self) -> (s: &State<Equatorial>)
        ensures
            *s == self.seen_by(),
    {
        match self {
            FOV::OmniDirectional(f) => &f.observer,
            FOV::GenericCone(f) => &f.observer,
            FOV::GenericRectangle(f) => &f.observer,
            FOV::Wise(f) => &f.observer,
            FOV::NeosCmos(f) => &f.observer,
            FOV::NeosVisit(f) => &f.observer,
            FOV::ZtfCcdQuad(f) => &f.observer,
            FOV::ZtfField(f) => &f.observer,
            FOV::PtfCcd(f) => &f.observer,
            FOV::PtfField(f) => &f.observer,
            FOV::SpherexCmos(f) => &f.observer,
            FOV::SpherexField(f) => &f.observer,
            FOV::Spitzer(f) => &f.observer,
        }
    }
}

} // verus!
