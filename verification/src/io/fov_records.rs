//! The format of fields of view.
use crate::errors::{Error, IoFault, KeteResult};
use crate::float::{F32, F64};
use crate::fov::{
    GenericCone, GenericRectangle, NeosCmos, NeosVisit, OmniDirectional, OnSkyRectangle, PTFFilter,
    PtfCcd, PtfField, SpherexCmos, SpherexField, SphericalCone, SpitzerBand, SpitzerFrame, WiseCmos,
    ZtfCcdQuad, ZtfField,
};
use crate::frames::{Equatorial, Vector};
use crate::io::reader::Reader;
use crate::io::wire;
use crate::io::wire::{KeteRead, KeteWrite, Wire};
use crate::state::State;
use vstd::prelude::*;

verus! {

impl Wire for OnSkyRectangle {
    type V = <[Vector<Equatorial>; 4] as Wire>::V;

    open spec fn wire(&self) -> Self::V {
        self.edge_normals.wire()
    }

    #[verifier::opaque]
    open spec fn enc(v: Self::V) -> Seq<u8> {
        <[Vector<Equatorial>; 4] as Wire>::enc(v)
    }

    open spec fn fits(v: Self::V) -> bool {
        <[Vector<Equatorial>; 4] as Wire>::fits(v)
    }

    #[verifier::opaque]
    open spec fn dec(b: Seq<u8>) -> KeteResult<(Self::V, Seq<u8>)> {
        <[Vector<Equatorial>; 4] as Wire>::dec(b)
    }

    proof fn lemma_round_trip(v: Self::V, rest: Seq<u8>) {
        reveal(<OnSkyRectangle as Wire>::enc);
        reveal(<OnSkyRectangle as Wire>::dec);
        <[Vector<Equatorial>; 4] as Wire>::lemma_round_trip(v, rest);
    }
}

impl KeteWrite for OnSkyRectangle {
    fn write_to(&self, w: &mut Vec<u8>) -> KeteResult<()> {
        proof {
            reveal(<OnSkyRectangle as Wire>::enc);
        }
        self.edge_normals.write_to(w)
    }
}

impl KeteRead for OnSkyRectangle {
    fn read_from(r: &mut Reader<'_>) -> KeteResult<Self> {
        proof {
            reveal(<OnSkyRectangle as Wire>::dec);
        }
        match <[Vector<Equatorial>; 4]>::read_from(r) {
            Ok(normals) => Ok(Self::from_normals(normals)),
            Err(e) => Err(e),
        }
    }
}

/// The tag of each variant.
pub open spec fn ptffilter_tag(v: PTFFilter) -> u8 {
    match v {
        PTFFilter::G => 0,
        PTFFilter::R => 1,
        PTFFilter::HA656 => 2,
        PTFFilter::HA663 => 3,
    }
}

impl Wire for PTFFilter {
    type V = PTFFilter;

    open spec fn wire(&self) -> PTFFilter {
        *self
    }

    open spec fn enc(v: PTFFilter) -> Seq<u8> {
        u8::enc(ptffilter_tag(v))
    }

    open spec fn fits(v: PTFFilter) -> bool {
        true
    }

    open spec fn dec(b: Seq<u8>) -> KeteResult<(PTFFilter, Seq<u8>)> {
        match u8::dec(b) {
            Ok((tag, rest)) => if tag < 4 {
                Ok((choose|v: PTFFilter| #[trigger] ptffilter_tag(v) == tag, rest))
            } else {
                Err(Error::IOError(IoFault::InvalidPtfFilterTag(tag)))
            },
            Err(e) => Err(e),
        }
    }

    proof fn lemma_round_trip(v: PTFFilter, rest: Seq<u8>) {
        u8::lemma_round_trip(ptffilter_tag(v), rest);
    }
}

impl KeteWrite for PTFFilter {
    fn write_to(&self, w: &mut Vec<u8>) -> KeteResult<()> {
        let tag: u8 = match self {
            PTFFilter::G => 0,
            PTFFilter::R => 1,
            PTFFilter::HA656 => 2,
            PTFFilter::HA663 => 3,
        };
        tag.write_to(w)
    }
}

impl KeteRead for PTFFilter {
    fn read_from(r: &mut Reader<'_>) -> KeteResult<Self> {
        match u8::read_from(r) {
            Ok(tag) => {
                let v = match tag {
                    0 => PTFFilter::G,
                    1 => PTFFilter::R,
                    2 => PTFFilter::HA656,
                    3 => PTFFilter::HA663,
                    t => {
                        return Err(Error::IOError(IoFault::InvalidPtfFilterTag(t)));
                    },
                };
                assert(ptffilter_tag(v) == tag);
                Ok(v)
            },
            Err(e) => Err(e),
        }
    }
}

/// The tag of each variant.
pub open spec fn spitzerband_tag(v: SpitzerBand) -> u8 {
    match v {
        SpitzerBand::Irac1 => 0,
        SpitzerBand::Irac2 => 1,
        SpitzerBand::Irac3 => 2,
        SpitzerBand::Irac4 => 3,
        SpitzerBand::Mips24 => 4,
        SpitzerBand::Mips70 => 5,
        SpitzerBand::Mips160 => 6,
        SpitzerBand::IrsPeakUpBlue => 7,
        SpitzerBand::IrsPeakUpRed => 8,
    }
}

impl Wire for SpitzerBand {
    type V = SpitzerBand;

    open spec fn wire(&self) -> SpitzerBand {
        *self
    }

    open spec fn enc(v: SpitzerBand) -> Seq<u8> {
        u8::enc(spitzerband_tag(v))
    }

    open spec fn fits(v: SpitzerBand) -> bool {
        true
    }

    open spec fn dec(b: Seq<u8>) -> KeteResult<(SpitzerBand, Seq<u8>)> {
        match u8::dec(b) {
            Ok((tag, rest)) => if tag < 9 {
                Ok((choose|v: SpitzerBand| #[trigger] spitzerband_tag(v) == tag, rest))
            } else {
                Err(Error::IOError(IoFault::InvalidSpitzerBandTag(tag)))
            },
            Err(e) => Err(e),
        }
    }

    proof fn lemma_round_trip(v: SpitzerBand, rest: Seq<u8>) {
        u8::lemma_round_trip(spitzerband_tag(v), rest);
    }
}

impl KeteWrite for SpitzerBand {
    fn write_to(&self, w: &mut Vec<u8>) -> KeteResult<()> {
        let tag: u8 = match self {
            SpitzerBand::Irac1 => 0,
            SpitzerBand::Irac2 => 1,
            SpitzerBand::Irac3 => 2,
            SpitzerBand::Irac4 => 3,
            SpitzerBand::Mips24 => 4,
            SpitzerBand::Mips70 => 5,
            SpitzerBand::Mips160 => 6,
            SpitzerBand::IrsPeakUpBlue => 7,
            SpitzerBand::IrsPeakUpRed => 8,
        };
        tag.write_to(w)
    }
}

impl KeteRead for SpitzerBand {
    fn read_from(r: &mut Reader<'_>) -> KeteResult<Self> {
        match u8::read_from(r) {
            Ok(tag) => {
                let v = match tag {
                    0 => SpitzerBand::Irac1,
                    1 => SpitzerBand::Irac2,
                    2 => SpitzerBand::Irac3,
                    3 => SpitzerBand::Irac4,
                    4 => SpitzerBand::Mips24,
                    5 => SpitzerBand::Mips70,
                    6 => SpitzerBand::Mips160,
                    7 => SpitzerBand::IrsPeakUpBlue,
                    8 => SpitzerBand::IrsPeakUpRed,
                    t => {
                        return Err(Error::IOError(IoFault::InvalidSpitzerBandTag(t)));
                    },
                };
                assert(spitzerband_tag(v) == tag);
                Ok(v)
            },
            Err(e) => Err(e),
        }
    }
}

/// The fields of [`SphericalCone`] in the order of the file.
pub type SphericalConeFields = (Vector<Equatorial>, F64);

impl Wire for SphericalCone {
    type V = <SphericalConeFields as Wire>::V;

    open spec fn wire(&self) -> Self::V {
        (self.pointing.wire(), self.angle.wire())
    }

    #[verifier::opaque]
    open spec fn enc(v: Self::V) -> Seq<u8> {
        <SphericalConeFields as Wire>::enc(v)
    }

    open spec fn fits(v: Self::V) -> bool {
        <SphericalConeFields as Wire>::fits(v)
    }

    #[verifier::opaque]
    open spec fn dec(b: Seq<u8>) -> KeteResult<(Self::V, Seq<u8>)> {
        <SphericalConeFields as Wire>::dec(b)
    }

    proof fn lemma_round_trip(v: Self::V, rest: Seq<u8>) {
        reveal(<SphericalCone as Wire>::enc);
        reveal(<SphericalCone as Wire>::dec);
        <SphericalConeFields as Wire>::lemma_round_trip(v, rest);
    }
}

impl KeteWrite for SphericalCone {
    fn write_to(&self, w: &mut Vec<u8>) -> KeteResult<()> {
        proof {
            reveal(<SphericalCone as Wire>::enc);
        }
        (&self.pointing, &self.angle).write_to(w)
    }
}

impl KeteRead for SphericalCone {
    fn read_from(r: &mut Reader<'_>) -> KeteResult<Self> {
        proof {
            reveal(<SphericalCone as Wire>::dec);
        }
        match <SphericalConeFields>::read_from(r) {
            Ok((pointing, angle)) => Ok(SphericalCone { pointing, angle }),
            Err(e) => Err(e),
        }
    }
}

impl Wire for OmniDirectional {
    type V = <State<Equatorial> as Wire>::V;

    open spec fn wire(&self) -> Self::V {
        self.observer.wire()
    }

    #[verifier::opaque]
    open spec fn enc(v: Self::V) -> Seq<u8> {
        <State<Equatorial> as Wire>::enc(v)
    }

    open spec fn fits(v: Self::V) -> bool {
        <State<Equatorial> as Wire>::fits(v)
    }

    #[verifier::opaque]
    open spec fn dec(b: Seq<u8>) -> KeteResult<(Self::V, Seq<u8>)> {
        <State<Equatorial> as Wire>::dec(b)
    }

    proof fn lemma_round_trip(v: Self::V, rest: Seq<u8>) {
        reveal(<OmniDirectional as Wire>::enc);
        reveal(<OmniDirectional as Wire>::dec);
        <State<Equatorial> as Wire>::lemma_round_trip(v, rest);
    }
}

impl KeteWrite for OmniDirectional {
    fn write_to(&self, w: &mut Vec<u8>) -> KeteResult<()> {
        proof {
            reveal(<OmniDirectional as Wire>::enc);
        }
        self.observer.write_to(w)
    }
}

impl KeteRead for OmniDirectional {
    fn read_from(r: &mut Reader<'_>) -> KeteResult<Self> {
        proof {
            reveal(<OmniDirectional as Wire>::dec);
        }
        match State::<Equatorial>::read_from(r) {
            Ok(observer) => Ok(OmniDirectional { observer }),
            Err(e) => Err(e),
        }
    }
}

/// The fields of [`GenericCone`] in the order of the file.
pub type GenericConeFields = (State<Equatorial>, SphericalCone);

impl Wire for GenericCone {
    type V = <GenericConeFields as Wire>::V;

    open spec fn wire(&self) -> Self::V {
        (self.observer.wire(), self.patch.wire())
    }

    #[verifier::opaque]
    open spec fn enc(v: Self::V) -> Seq<u8> {
        <GenericConeFields as Wire>::enc(v)
    }

    open spec fn fits(v: Self::V) -> bool {
        <GenericConeFields as Wire>::fits(v)
    }

    #[verifier::opaque]
    open spec fn dec(b: Seq<u8>) -> KeteResult<(Self::V, Seq<u8>)> {
        <GenericConeFields as Wire>::dec(b)
    }

    proof fn lemma_round_trip(v: Self::V, rest: Seq<u8>) {
        reveal(<GenericCone as Wire>::enc);
        reveal(<GenericCone as Wire>::dec);
        <GenericConeFields as Wire>::lemma_round_trip(v, rest);
    }
}

impl KeteWrite for GenericCone {
    fn write_to(&self, w: &mut Vec<u8>) -> KeteResult<()> {
        proof {
            reveal(<GenericCone as Wire>::enc);
        }
        (&self.observer, &self.patch).write_to(w)
    }
}

impl KeteRead for GenericCone {
    fn read_from(r: &mut Reader<'_>) -> KeteResult<Self> {
        proof {
            reveal(<GenericCone as Wire>::dec);
        }
        match <GenericConeFields>::read_from(r) {
            Ok((observer, patch)) => Ok(GenericCone { observer, patch }),
            Err(e) => Err(e),
        }
    }
}

/// The fields of [`GenericRectangle`] in the order of the file.
pub type GenericRectangleFields = (State<Equatorial>, (OnSkyRectangle, F64));

impl Wire for GenericRectangle {
    type V = <GenericRectangleFields as Wire>::V;

    open spec fn wire(&self) -> Self::V {
        (self.observer.wire(), (self.patch.wire(), self.rotation.wire()))
    }

    #[verifier::opaque]
    open spec fn enc(v: Self::V) -> Seq<u8> {
        <GenericRectangleFields as Wire>::enc(v)
    }

    open spec fn fits(v: Self::V) -> bool {
        <GenericRectangleFields as Wire>::fits(v)
    }

    #[verifier::opaque]
    open spec fn dec(b: Seq<u8>) -> KeteResult<(Self::V, Seq<u8>)> {
        <GenericRectangleFields as Wire>::dec(b)
    }

    proof fn lemma_round_trip(v: Self::V, rest: Seq<u8>) {
        reveal(<GenericRectangle as Wire>::enc);
        reveal(<GenericRectangle as Wire>::dec);
        <GenericRectangleFields as Wire>::lemma_round_trip(v, rest);
    }
}

impl KeteWrite for GenericRectangle {
    fn write_to(&self, w: &mut Vec<u8>) -> KeteResult<()> {
        proof {
            reveal(<GenericRectangle as Wire>::enc);
        }
        (&self.observer, (&self.patch, &self.rotation)).write_to(w)
    }
}

impl KeteRead for GenericRectangle {
    fn read_from(r: &mut Reader<'_>) -> KeteResult<Self> {
        proof {
            reveal(<GenericRectangle as Wire>::dec);
        }
        match <GenericRectangleFields>::read_from(r) {
            Ok((observer, (patch, rotation))) => Ok(GenericRectangle { observer, patch, rotation }),
            Err(e) => Err(e),
        }
    }
}

/// The fields of [`WiseCmos`] in the order of the file.
pub type WiseCmosFields = (State<Equatorial>, (OnSkyRectangle, (u64, Box<str>)));

impl Wire for WiseCmos {
    type V = <WiseCmosFields as Wire>::V;

    open spec fn wire(&self) -> Self::V {
        (self.observer.wire(), (self.patch.wire(), (self.frame_num.wire(), self.scan_id.wire())))
    }

    #[verifier::opaque]
    open spec fn enc(v: Self::V) -> Seq<u8> {
        <WiseCmosFields as Wire>::enc(v)
    }

    open spec fn fits(v: Self::V) -> bool {
        <WiseCmosFields as Wire>::fits(v)
    }

    #[verifier::opaque]
    open spec fn dec(b: Seq<u8>) -> KeteResult<(Self::V, Seq<u8>)> {
        <WiseCmosFields as Wire>::dec(b)
    }

    proof fn lemma_round_trip(v: Self::V, rest: Seq<u8>) {
        reveal(<WiseCmos as Wire>::enc);
        reveal(<WiseCmos as Wire>::dec);
        <WiseCmosFields as Wire>::lemma_round_trip(v, rest);
    }
}

impl KeteWrite for WiseCmos {
    fn write_to(&self, w: &mut Vec<u8>) -> KeteResult<()> {
        proof {
            reveal(<WiseCmos as Wire>::enc);
        }
        (&self.observer, (&self.patch, (&self.frame_num, &*self.scan_id))).write_to(w)
    }
}

impl KeteRead for WiseCmos {
    fn read_from(r: &mut Reader<'_>) -> KeteResult<Self> {
        proof {
            reveal(<WiseCmos as Wire>::dec);
        }
        match <WiseCmosFields>::read_from(r) {
            Ok((observer, (patch, (frame_num, scan_id)))) => Ok(WiseCmos { observer, patch,
                frame_num, scan_id }),
            Err(e) => Err(e),
        }
    }
}

/// The fields of [`NeosCmos`] in the order of the file.
pub type NeosCmosFields = (State<Equatorial>, (OnSkyRectangle, (F64, (u16, (u8, (u8, (u8, (u8, (u8,
    (u8, u8))))))))));

impl Wire for NeosCmos {
    type V = <NeosCmosFields as Wire>::V;

    open spec fn wire(&self) -> Self::V {
        (self.observer.wire(), (self.patch.wire(), (self.rotation.wire(), (self.side_id.wire(),
            (self.stack_id.wire(), (self.quad_id.wire(), (self.loop_id.wire(),
            (self.subloop_id.wire(), (self.exposure_id.wire(), (self.band.wire(),
            self.cmos_id.wire()))))))))))
    }

    #[verifier::opaque]
    open spec fn enc(v: Self::V) -> Seq<u8> {
        <NeosCmosFields as Wire>::enc(v)
    }

    open spec fn fits(v: Self::V) -> bool {
        <NeosCmosFields as Wire>::fits(v)
    }

    #[verifier::opaque]
    open spec fn dec(b: Seq<u8>) -> KeteResult<(Self::V, Seq<u8>)> {
        <NeosCmosFields as Wire>::dec(b)
    }

    proof fn lemma_round_trip(v: Self::V, rest: Seq<u8>) {
        reveal(<NeosCmos as Wire>::enc);
        reveal(<NeosCmos as Wire>::dec);
        <NeosCmosFields as Wire>::lemma_round_trip(v, rest);
    }
}

impl KeteWrite for NeosCmos {
    fn write_to(&self, w: &mut Vec<u8>) -> KeteResult<()> {
        proof {
            reveal(<NeosCmos as Wire>::enc);
        }
        (&self.observer, (&self.patch, (&self.rotation, (&self.side_id, (&self.stack_id,
            (&self.quad_id, (&self.loop_id, (&self.subloop_id, (&self.exposure_id, (&self.band,
            &self.cmos_id)))))))))).write_to(w)
    }
}

impl KeteRead for NeosCmos {
    fn read_from(r: &mut Reader<'_>) -> KeteResult<Self> {
        proof {
            reveal(<NeosCmos as Wire>::dec);
        }
        match <NeosCmosFields>::read_from(r) {
            Ok((observer, (patch, (rotation, (side_id, (stack_id, (quad_id, (loop_id, (subloop_id,
                (exposure_id, (band, cmos_id))))))))))) => Ok(NeosCmos { observer, patch, rotation,
                side_id, stack_id, quad_id, loop_id, subloop_id, exposure_id, band, cmos_id }),
            Err(e) => Err(e),
        }
    }
}

/// The fields of [`NeosVisit`] in the order of the file.
pub type NeosVisitFields = ([NeosCmos; 4], (State<Equatorial>, (F64, (u16, (u8, (u8, (u8, (u8, (u8,
    u8)))))))));

impl Wire for NeosVisit {
    type V = <NeosVisitFields as Wire>::V;

    open spec fn wire(&self) -> Self::V {
        (self.chips.wire(), (self.observer.wire(), (self.rotation.wire(), (self.side_id.wire(),
            (self.stack_id.wire(), (self.quad_id.wire(), (self.loop_id.wire(),
            (self.subloop_id.wire(), (self.exposure_id.wire(), self.band.wire())))))))))
    }

    #[verifier::opaque]
    open spec fn enc(v: Self::V) -> Seq<u8> {
        <NeosVisitFields as Wire>::enc(v)
    }

    open spec fn fits(v: Self::V) -> bool {
        <NeosVisitFields as Wire>::fits(v)
    }

    #[verifier::opaque]
    open spec fn dec(b: Seq<u8>) -> KeteResult<(Self::V, Seq<u8>)> {
        <NeosVisitFields as Wire>::dec(b)
    }

    proof fn lemma_round_trip(v: Self::V, rest: Seq<u8>) {
        reveal(<NeosVisit as Wire>::enc);
        reveal(<NeosVisit as Wire>::dec);
        <NeosVisitFields as Wire>::lemma_round_trip(v, rest);
    }
}

impl KeteWrite for NeosVisit {
    fn write_to(&self, w: &mut Vec<u8>) -> KeteResult<()> {
        proof {
            reveal(<NeosVisit as Wire>::enc);
        }
        (&*self.chips, (&self.observer, (&self.rotation, (&self.side_id, (&self.stack_id,
            (&self.quad_id, (&self.loop_id, (&self.subloop_id, (&self.exposure_id,
            &self.band))))))))).write_to(w)
    }
}

impl KeteRead for NeosVisit {
    fn read_from(r: &mut Reader<'_>) -> KeteResult<Self> {
        proof {
            reveal(<NeosVisit as Wire>::dec);
        }
        match <NeosVisitFields>::read_from(r) {
            Ok((chips, (observer, (rotation, (side_id, (stack_id, (quad_id, (loop_id, (subloop_id,
                (exposure_id, band)))))))))) => Ok(NeosVisit { chips: Box::new(chips), observer,
                rotation, side_id, stack_id, quad_id, loop_id, subloop_id, exposure_id, band }),
            Err(e) => Err(e),
        }
    }
}

/// The fields of [`ZtfCcdQuad`] in the order of the file.
pub type ZtfCcdQuadFields = (State<Equatorial>, (OnSkyRectangle, (u32, (u64, (F64, (u64, (Box<str>,
    (Box<str>, (u8, u8)))))))));

impl Wire for ZtfCcdQuad {
    type V = <ZtfCcdQuadFields as Wire>::V;

    open spec fn wire(&self) -> Self::V {
        (self.observer.wire(), (self.patch.wire(), (self.field.wire(), (self.filefracday.wire(),
            (self.maglimit.wire(), (self.fid.wire(), (self.filtercode.wire(),
            (self.imgtypecode.wire(), (self.ccdid.wire(), self.qid.wire())))))))))
    }

    #[verifier::opaque]
    open spec fn enc(v: Self::V) -> Seq<u8> {
        <ZtfCcdQuadFields as Wire>::enc(v)
    }

    open spec fn fits(v: Self::V) -> bool {
        <ZtfCcdQuadFields as Wire>::fits(v)
    }

    #[verifier::opaque]
    open spec fn dec(b: Seq<u8>) -> KeteResult<(Self::V, Seq<u8>)> {
        <ZtfCcdQuadFields as Wire>::dec(b)
    }

    proof fn lemma_round_trip(v: Self::V, rest: Seq<u8>) {
        reveal(<ZtfCcdQuad as Wire>::enc);
        reveal(<ZtfCcdQuad as Wire>::dec);
        <ZtfCcdQuadFields as Wire>::lemma_round_trip(v, rest);
    }
}

impl KeteWrite for ZtfCcdQuad {
    fn write_to(&self, w: &mut Vec<u8>) -> KeteResult<()> {
        proof {
            reveal(<ZtfCcdQuad as Wire>::enc);
        }
        (&self.observer, (&self.patch, (&self.field, (&self.filefracday, (&self.maglimit,
            (&self.fid, (&*self.filtercode, (&*self.imgtypecode, (&self.ccdid,
            &self.qid))))))))).write_to(w)
    }
}

impl KeteRead for ZtfCcdQuad {
    fn read_from(r: &mut Reader<'_>) -> KeteResult<Self> {
        proof {
            reveal(<ZtfCcdQuad as Wire>::dec);
        }
        match <ZtfCcdQuadFields>::read_from(r) {
            Ok((observer, (patch, (field, (filefracday, (maglimit, (fid, (filtercode, (imgtypecode,
                (ccdid, qid)))))))))) => Ok(ZtfCcdQuad { observer, patch, field, filefracday,
                maglimit, fid, filtercode, imgtypecode, ccdid, qid }),
            Err(e) => Err(e),
        }
    }
}

/// The fields of [`ZtfField`] in the order of the file.
pub type ZtfFieldFields = (Vec<ZtfCcdQuad>, (State<Equatorial>, (u32, (u64, (Box<str>,
    Box<str>)))));

impl Wire for ZtfField {
    type V = <ZtfFieldFields as Wire>::V;

    open spec fn wire(&self) -> Self::V {
        (self.ccd_quads.wire(), (self.observer.wire(), (self.field.wire(), (self.fid.wire(),
            (self.filtercode.wire(), self.imgtypecode.wire())))))
    }

    #[verifier::opaque]
    open spec fn enc(v: Self::V) -> Seq<u8> {
        <ZtfFieldFields as Wire>::enc(v)
    }

    open spec fn fits(v: Self::V) -> bool {
        <ZtfFieldFields as Wire>::fits(v)
    }

    #[verifier::opaque]
    open spec fn dec(b: Seq<u8>) -> KeteResult<(Self::V, Seq<u8>)> {
        <ZtfFieldFields as Wire>::dec(b)
    }

    proof fn lemma_round_trip(v: Self::V, rest: Seq<u8>) {
        reveal(<ZtfField as Wire>::enc);
        reveal(<ZtfField as Wire>::dec);
        <ZtfFieldFields as Wire>::lemma_round_trip(v, rest);
    }
}

impl KeteWrite for ZtfField {
    fn write_to(&self, w: &mut Vec<u8>) -> KeteResult<()> {
        proof {
            reveal(<ZtfField as Wire>::enc);
        }
        (&self.ccd_quads, (&self.observer, (&self.field, (&self.fid, (&*self.filtercode,
            &*self.imgtypecode))))).write_to(w)
    }
}

impl KeteRead for ZtfField {
    fn read_from(r: &mut Reader<'_>) -> KeteResult<Self> {
        proof {
            reveal(<ZtfField as Wire>::dec);
        }
        match <ZtfFieldFields>::read_from(r) {
            Ok((ccd_quads, (observer, (field, (fid, (filtercode, imgtypecode))))))
                => Ok(ZtfField { ccd_quads, observer, field, fid, filtercode, imgtypecode }),
            Err(e) => Err(e),
        }
    }
}

/// The fields of [`PtfCcd`] in the order of the file.
pub type PtfCcdFields = (State<Equatorial>, (OnSkyRectangle, (u32, (u8, (PTFFilter, (Box<str>, (u32,
    F32)))))));

impl Wire for PtfCcd {
    type V = <PtfCcdFields as Wire>::V;

    open spec fn wire(&self) -> Self::V {
        (self.observer.wire(), (self.patch.wire(), (self.field.wire(), (self.ccdid.wire(),
            (self.filter.wire(), (self.filename.wire(), (self.info_bits.wire(),
            self.seeing.wire())))))))
    }

    #[verifier::opaque]
    open spec fn enc(v: Self::V) -> Seq<u8> {
        <PtfCcdFields as Wire>::enc(v)
    }

    open spec fn fits(v: Self::V) -> bool {
        <PtfCcdFields as Wire>::fits(v)
    }

    #[verifier::opaque]
    open spec fn dec(b: Seq<u8>) -> KeteResult<(Self::V, Seq<u8>)> {
        <PtfCcdFields as Wire>::dec(b)
    }

    proof fn lemma_round_trip(v: Self::V, rest: Seq<u8>) {
        reveal(<PtfCcd as Wire>::enc);
        reveal(<PtfCcd as Wire>::dec);
        <PtfCcdFields as Wire>::lemma_round_trip(v, rest);
    }
}

impl KeteWrite for PtfCcd {
    fn write_to(&self, w: &mut Vec<u8>) -> KeteResult<()> {
        proof {
            reveal(<PtfCcd as Wire>::enc);
        }
        (&self.observer, (&self.patch, (&self.field, (&self.ccdid, (&self.filter, (&*self.filename,
            (&self.info_bits, &self.seeing))))))).write_to(w)
    }
}

impl KeteRead for PtfCcd {
    fn read_from(r: &mut Reader<'_>) -> KeteResult<Self> {
        proof {
            reveal(<PtfCcd as Wire>::dec);
        }
        match <PtfCcdFields>::read_from(r) {
            Ok((observer, (patch, (field, (ccdid, (filter, (filename, (info_bits, seeing))))))))
                => Ok(PtfCcd { observer, patch, field, ccdid, filter, filename, info_bits,
                seeing }),
            Err(e) => Err(e),
        }
    }
}

/// The fields of [`PtfField`] in the order of the file.
pub type PtfFieldFields = (Vec<PtfCcd>, (State<Equatorial>, (u32, PTFFilter)));

impl Wire for PtfField {
    type V = <PtfFieldFields as Wire>::V;

    open spec fn wire(&self) -> Self::V {
        (self.ccds.wire(), (self.observer.wire(), (self.field.wire(), self.filter.wire())))
    }

    #[verifier::opaque]
    open spec fn enc(v: Self::V) -> Seq<u8> {
        <PtfFieldFields as Wire>::enc(v)
    }

    open spec fn fits(v: Self::V) -> bool {
        <PtfFieldFields as Wire>::fits(v)
    }

    #[verifier::opaque]
    open spec fn dec(b: Seq<u8>) -> KeteResult<(Self::V, Seq<u8>)> {
        <PtfFieldFields as Wire>::dec(b)
    }

    proof fn lemma_round_trip(v: Self::V, rest: Seq<u8>) {
        reveal(<PtfField as Wire>::enc);
        reveal(<PtfField as Wire>::dec);
        <PtfFieldFields as Wire>::lemma_round_trip(v, rest);
    }
}

impl KeteWrite for PtfField {
    fn write_to(&self, w: &mut Vec<u8>) -> KeteResult<()> {
        proof {
            reveal(<PtfField as Wire>::enc);
        }
        (&self.ccds, (&self.observer, (&self.field, &self.filter))).write_to(w)
    }
}

impl KeteRead for PtfField {
    fn read_from(r: &mut Reader<'_>) -> KeteResult<Self> {
        proof {
            reveal(<PtfField as Wire>::dec);
        }
        match <PtfFieldFields>::read_from(r) {
            Ok((ccds, (observer, (field, filter)))) => Ok(PtfField { ccds, observer, field,
                filter }),
            Err(e) => Err(e),
        }
    }
}

/// The fields of [`SpherexCmos`] in the order of the file.
pub type SpherexCmosFields = (State<Equatorial>, (OnSkyRectangle, (Box<str>, Box<str>)));

impl Wire for SpherexCmos {
    type V = <SpherexCmosFields as Wire>::V;

    open spec fn wire(&self) -> Self::V {
        (self.observer.wire(), (self.patch.wire(), (self.uri.wire(), self.plane_id.wire())))
    }

    #[verifier::opaque]
    open spec fn enc(v: Self::V) -> Seq<u8> {
        <SpherexCmosFields as Wire>::enc(v)
    }

    open spec fn fits(v: Self::V) -> bool {
        <SpherexCmosFields as Wire>::fits(v)
    }

    #[verifier::opaque]
    open spec fn dec(b: Seq<u8>) -> KeteResult<(Self::V, Seq<u8>)> {
        <SpherexCmosFields as Wire>::dec(b)
    }

    proof fn lemma_round_trip(v: Self::V, rest: Seq<u8>) {
        reveal(<SpherexCmos as Wire>::enc);
        reveal(<SpherexCmos as Wire>::dec);
        <SpherexCmosFields as Wire>::lemma_round_trip(v, rest);
    }
}

impl KeteWrite for SpherexCmos {
    fn write_to(&self, w: &mut Vec<u8>) -> KeteResult<()> {
        proof {
            reveal(<SpherexCmos as Wire>::enc);
        }
        (&self.observer, (&self.patch, (&*self.uri, &*self.plane_id))).write_to(w)
    }
}

impl KeteRead for SpherexCmos {
    fn read_from(r: &mut Reader<'_>) -> KeteResult<Self> {
        proof {
            reveal(<SpherexCmos as Wire>::dec);
        }
        match <SpherexCmosFields>::read_from(r) {
            Ok((observer, (patch, (uri, plane_id)))) => Ok(SpherexCmos { observer, patch, uri,
                plane_id }),
            Err(e) => Err(e),
        }
    }
}

/// The fields of [`SpherexField`] in the order of the file.
pub type SpherexFieldFields = (Vec<SpherexCmos>, (State<Equatorial>, (Box<str>, Box<str>)));

impl Wire for SpherexField {
    type V = <SpherexFieldFields as Wire>::V;

    open spec fn wire(&self) -> Self::V {
        (self.cmos_frames.wire(), (self.observer.wire(), (self.obsid.wire(),
            self.observationid.wire())))
    }

    #[verifier::opaque]
    open spec fn enc(v: Self::V) -> Seq<u8> {
        <SpherexFieldFields as Wire>::enc(v)
    }

    open spec fn fits(v: Self::V) -> bool {
        <SpherexFieldFields as Wire>::fits(v)
    }

    #[verifier::opaque]
    open spec fn dec(b: Seq<u8>) -> KeteResult<(Self::V, Seq<u8>)> {
        <SpherexFieldFields as Wire>::dec(b)
    }

    proof fn lemma_round_trip(v: Self::V, rest: Seq<u8>) {
        reveal(<SpherexField as Wire>::enc);
        reveal(<SpherexField as Wire>::dec);
        <SpherexFieldFields as Wire>::lemma_round_trip(v, rest);
    }
}

impl KeteWrite for SpherexField {
    fn write_to(&self, w: &mut Vec<u8>) -> KeteResult<()> {
        proof {
            reveal(<SpherexField as Wire>::enc);
        }
        (&self.cmos_frames, (&self.observer, (&*self.obsid, &*self.observationid))).write_to(w)
    }
}

impl KeteRead for SpherexField {
    fn read_from(r: &mut Reader<'_>) -> KeteResult<Self> {
        proof {
            reveal(<SpherexField as Wire>::dec);
        }
        match <SpherexFieldFields>::read_from(r) {
            Ok((cmos_frames, (observer, (obsid, observationid)))) => Ok(SpherexField { cmos_frames,
                observer, obsid, observationid }),
            Err(e) => Err(e),
        }
    }
}

/// The fields of [`SpitzerFrame`] in the order of the file.
pub type SpitzerFrameFields = (State<Equatorial>, (OnSkyRectangle, (Box<str>, (SpitzerBand,
    (Box<str>, F64)))));

impl Wire for SpitzerFrame {
    type V = <SpitzerFrameFields as Wire>::V;

    open spec fn wire(&self) -> Self::V {
        (self.observer.wire(), (self.patch.wire(), (self.obs_id.wire(), (self.band.wire(),
            (self.artifact_uri.wire(), self.duration.wire())))))
    }

    #[verifier::opaque]
    open spec fn enc(v: Self::V) -> Seq<u8> {
        <SpitzerFrameFields as Wire>::enc(v)
    }

    open spec fn fits(v: Self::V) -> bool {
        <SpitzerFrameFields as Wire>::fits(v)
    }

    #[verifier::opaque]
    open spec fn dec(b: Seq<u8>) -> KeteResult<(Self::V, Seq<u8>)> {
        <SpitzerFrameFields as Wire>::dec(b)
    }

    proof fn lemma_round_trip(v: Self::V, rest: Seq<u8>) {
        reveal(<SpitzerFrame as Wire>::enc);
        reveal(<SpitzerFrame as Wire>::dec);
        <SpitzerFrameFields as Wire>::lemma_round_trip(v, rest);
    }
}

impl KeteWrite for SpitzerFrame {
    fn write_to(&self, w: &mut Vec<u8>) -> KeteResult<()> {
        proof {
            reveal(<SpitzerFrame as Wire>::enc);
        }
        (&self.observer, (&self.patch, (&*self.obs_id, (&self.band, (&*self.artifact_uri,
            &self.duration))))).write_to(w)
    }
}

impl KeteRead for SpitzerFrame {
    fn read_from(r: &mut Reader<'_>) -> KeteResult<Self> {
        proof {
            reveal(<SpitzerFrame as Wire>::dec);
        }
        match <SpitzerFrameFields>::read_from(r) {
            Ok((observer, (patch, (obs_id, (band, (artifact_uri, duration))))))
                => Ok(SpitzerFrame { observer, patch, obs_id, band, artifact_uri, duration }),
            Err(e) => Err(e),
        }
    }
}

} // verus!
