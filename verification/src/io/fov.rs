//! The format of a field of view of any kind.
//!
//! A tag tells the kind and a length tells how many bytes belong to it, so that a kind
//! which is not known can be skipped.
use crate::errors::{Error, IoFault, KeteResult};
use crate::fov::{
    FOV, GenericCone, GenericRectangle, NeosCmos, NeosVisit, OmniDirectional, PtfCcd, PtfField,
    SpherexCmos, SpherexField, SpitzerFrame, WiseCmos, ZtfCcdQuad, ZtfField,
};
use crate::frames::Equatorial;
use crate::io::bytes;
use crate::io::reader::Reader;
use crate::io::wire;
use crate::io::wire::{KeteRead, KeteWrite, Wire};
use crate::state::State;
use vstd::prelude::*;

verus! {

/// What is kept of a state.
pub type StateModel = <State<Equatorial> as Wire>::V;

/// What is kept of a field of view.
pub enum FovModel {
    OmniDirectional(<OmniDirectional as Wire>::V),
    GenericCone(<GenericCone as Wire>::V),
    GenericRectangle(<GenericRectangle as Wire>::V),
    Wise(<WiseCmos as Wire>::V),
    NeosCmos(<NeosCmos as Wire>::V),
    NeosVisit(<NeosVisit as Wire>::V),
    ZtfCcdQuad(<ZtfCcdQuad as Wire>::V),
    ZtfField(<ZtfField as Wire>::V),
    PtfCcd(<PtfCcd as Wire>::V),
    PtfField(<PtfField as Wire>::V),
    SpherexCmos(<SpherexCmos as Wire>::V),
    SpherexField(<SpherexField as Wire>::V),
    Spitzer(<SpitzerFrame as Wire>::V),
}

/// The tag of each kind.
pub open spec fn fov_tag(v: FovModel) -> u8 {
    match v {
        FovModel::OmniDirectional(_) => 0,
        FovModel::GenericCone(_) => 1,
        FovModel::GenericRectangle(_) => 2,
        FovModel::Wise(_) => 3,
        FovModel::NeosCmos(_) => 4,
        FovModel::NeosVisit(_) => 5,
        FovModel::ZtfCcdQuad(_) => 6,
        FovModel::ZtfField(_) => 7,
        FovModel::PtfCcd(_) => 8,
        FovModel::PtfField(_) => 9,
        FovModel::SpherexCmos(_) => 10,
        FovModel::SpherexField(_) => 11,
        FovModel::Spitzer(_) => 12,
    }
}

/// The bytes behind the tag and the length of a field of view.
pub open spec fn fov_payload(v: FovModel) -> Seq<u8> {
    match v {
        FovModel::OmniDirectional(f) => OmniDirectional::enc(f),
        FovModel::GenericCone(f) => GenericCone::enc(f),
        FovModel::GenericRectangle(f) => GenericRectangle::enc(f),
        FovModel::Wise(f) => WiseCmos::enc(f),
        FovModel::NeosCmos(f) => NeosCmos::enc(f),
        FovModel::NeosVisit(f) => NeosVisit::enc(f),
        FovModel::ZtfCcdQuad(f) => ZtfCcdQuad::enc(f),
        FovModel::ZtfField(f) => ZtfField::enc(f),
        FovModel::PtfCcd(f) => PtfCcd::enc(f),
        FovModel::PtfField(f) => PtfField::enc(f),
        FovModel::SpherexCmos(f) => SpherexCmos::enc(f),
        FovModel::SpherexField(f) => SpherexField::enc(f),
        FovModel::Spitzer(f) => SpitzerFrame::enc(f),
    }
}

/// Do the parts of a field of view fit.
pub open spec fn fov_parts_fit(v: FovModel) -> bool {
    match v {
        FovModel::OmniDirectional(f) => OmniDirectional::fits(f),
        FovModel::GenericCone(f) => GenericCone::fits(f),
        FovModel::GenericRectangle(f) => GenericRectangle::fits(f),
        FovModel::Wise(f) => WiseCmos::fits(f),
        FovModel::NeosCmos(f) => NeosCmos::fits(f),
        FovModel::NeosVisit(f) => NeosVisit::fits(f),
        FovModel::ZtfCcdQuad(f) => ZtfCcdQuad::fits(f),
        FovModel::ZtfField(f) => ZtfField::fits(f),
        FovModel::PtfCcd(f) => PtfCcd::fits(f),
        FovModel::PtfField(f) => PtfField::fits(f),
        FovModel::SpherexCmos(f) => SpherexCmos::fits(f),
        FovModel::SpherexField(f) => SpherexField::fits(f),
        FovModel::Spitzer(f) => SpitzerFrame::fits(f),
    }
}

/// Who is looking.
pub open spec fn fov_observer(v: FovModel) -> StateModel {
    match v {
        FovModel::OmniDirectional(f) => f,
        FovModel::GenericCone(f) => f.0,
        FovModel::GenericRectangle(f) => f.0,
        FovModel::Wise(f) => f.0,
        FovModel::NeosCmos(f) => f.0,
        FovModel::NeosVisit(f) => f.1.0,
        FovModel::ZtfCcdQuad(f) => f.0,
        FovModel::ZtfField(f) => f.1.0,
        FovModel::PtfCcd(f) => f.0,
        FovModel::PtfField(f) => f.1.0,
        FovModel::SpherexCmos(f) => f.0,
        FovModel::SpherexField(f) => f.1.0,
        FovModel::Spitzer(f) => f.0,
    }
}

/// The field of view with this tag and these bytes, or `None` where the tag is not
/// known. Bytes left over do not matter.
pub open spec fn dec_fov(tag: u8, b: Seq<u8>) -> KeteResult<Option<FovModel>> {
    if tag == 0 {
        match OmniDirectional::dec(b) {
            Ok((f, _)) => Ok(Some(FovModel::OmniDirectional(f))),
            Err(e) => Err(e),
        }
    } else if tag == 1 {
        match GenericCone::dec(b) {
            Ok((f, _)) => Ok(Some(FovModel::GenericCone(f))),
            Err(e) => Err(e),
        }
    } else if tag == 2 {
        match GenericRectangle::dec(b) {
            Ok((f, _)) => Ok(Some(FovModel::GenericRectangle(f))),
            Err(e) => Err(e),
        }
    } else if tag == 3 {
        match WiseCmos::dec(b) {
            Ok((f, _)) => Ok(Some(FovModel::Wise(f))),
            Err(e) => Err(e),
        }
    } else if tag == 4 {
        match NeosCmos::dec(b) {
            Ok((f, _)) => Ok(Some(FovModel::NeosCmos(f))),
            Err(e) => Err(e),
        }
    } else if tag == 5 {
        match NeosVisit::dec(b) {
            Ok((f, _)) => Ok(Some(FovModel::NeosVisit(f))),
            Err(e) => Err(e),
        }
    } else if tag == 6 {
        match ZtfCcdQuad::dec(b) {
            Ok((f, _)) => Ok(Some(FovModel::ZtfCcdQuad(f))),
            Err(e) => Err(e),
        }
    } else if tag == 7 {
        match ZtfField::dec(b) {
            Ok((f, _)) => Ok(Some(FovModel::ZtfField(f))),
            Err(e) => Err(e),
        }
    } else if tag == 8 {
        match PtfCcd::dec(b) {
            Ok((f, _)) => Ok(Some(FovModel::PtfCcd(f))),
            Err(e) => Err(e),
        }
    } else if tag == 9 {
        match PtfField::dec(b) {
            Ok((f, _)) => Ok(Some(FovModel::PtfField(f))),
            Err(e) => Err(e),
        }
    } else if tag == 10 {
        match SpherexCmos::dec(b) {
            Ok((f, _)) => Ok(Some(FovModel::SpherexCmos(f))),
            Err(e) => Err(e),
        }
    } else if tag == 11 {
        match SpherexField::dec(b) {
            Ok((f, _)) => Ok(Some(FovModel::SpherexField(f))),
            Err(e) => Err(e),
        }
    } else if tag == 12 {
        match SpitzerFrame::dec(b) {
            Ok((f, _)) => Ok(Some(FovModel::Spitzer(f))),
            Err(e) => Err(e),
        }
    } else {
        Ok(None)
    }
}

/// The field of view which the bytes `b` start with, or `None` where its tag is not
/// known, and the bytes after it.
pub open spec fn dec_tagged_fov(b: Seq<u8>) -> KeteResult<(Option<FovModel>, Seq<u8>)> {
    match u8::dec(b) {
        Ok((tag, rest)) => match wire::dec_block(rest, 4) {
            Ok((payload, rest)) => match dec_fov(tag, payload) {
                Ok(f) => Ok((f, rest)),
                Err(e) => Err(e),
            },
            Err(e) => Err(e),
        },
        Err(e) => Err(e),
    }
}

/// A tag and a payload give back the field of view which they were written for.
proof fn lemma_fov_payload(v: FovModel)
    requires
        fov_parts_fit(v),
    ensures
        dec_fov(fov_tag(v), fov_payload(v)) == Ok::<Option<FovModel>, Error>(Some(v)),
{
    let end = Seq::<u8>::empty();
    assert(fov_payload(v) + end =~= fov_payload(v));
    match v {
        FovModel::OmniDirectional(f) => OmniDirectional::lemma_round_trip(f, end),
        FovModel::GenericCone(f) => GenericCone::lemma_round_trip(f, end),
        FovModel::GenericRectangle(f) => GenericRectangle::lemma_round_trip(f, end),
        FovModel::Wise(f) => WiseCmos::lemma_round_trip(f, end),
        FovModel::NeosCmos(f) => NeosCmos::lemma_round_trip(f, end),
        FovModel::NeosVisit(f) => NeosVisit::lemma_round_trip(f, end),
        FovModel::ZtfCcdQuad(f) => ZtfCcdQuad::lemma_round_trip(f, end),
        FovModel::ZtfField(f) => ZtfField::lemma_round_trip(f, end),
        FovModel::PtfCcd(f) => PtfCcd::lemma_round_trip(f, end),
        FovModel::PtfField(f) => PtfField::lemma_round_trip(f, end),
        FovModel::SpherexCmos(f) => SpherexCmos::lemma_round_trip(f, end),
        FovModel::SpherexField(f) => SpherexField::lemma_round_trip(f, end),
        FovModel::Spitzer(f) => SpitzerFrame::lemma_round_trip(f, end),
    }
}

impl Wire for FOV {
    type V = FovModel;

    open spec fn wire(&self) -> FovModel {
        match self {
            FOV::OmniDirectional(f) => FovModel::OmniDirectional(f.wire()),
            FOV::GenericCone(f) => FovModel::GenericCone(f.wire()),
            FOV::GenericRectangle(f) => FovModel::GenericRectangle(f.wire()),
            FOV::Wise(f) => FovModel::Wise(f.wire()),
            FOV::NeosCmos(f) => FovModel::NeosCmos(f.wire()),
            FOV::NeosVisit(f) => FovModel::NeosVisit(f.wire()),
            FOV::ZtfCcdQuad(f) => FovModel::ZtfCcdQuad(f.wire()),
            FOV::ZtfField(f) => FovModel::ZtfField(f.wire()),
            FOV::PtfCcd(f) => FovModel::PtfCcd(f.wire()),
            FOV::PtfField(f) => FovModel::PtfField(f.wire()),
            FOV::SpherexCmos(f) => FovModel::SpherexCmos(f.wire()),
            FOV::SpherexField(f) => FovModel::SpherexField(f.wire()),
            FOV::Spitzer(f) => FovModel::Spitzer(f.wire()),
        }
    }

    open spec fn enc(v: FovModel) -> Seq<u8> {
        u8::enc(fov_tag(v)) + wire::enc_block(fov_payload(v), 4)
    }

    open spec fn fits(v: FovModel) -> bool {
        fov_parts_fit(v) && fov_payload(v).len() < 0x1_0000_0000
    }

    open spec fn dec(b: Seq<u8>) -> KeteResult<(FovModel, Seq<u8>)> {
        match dec_tagged_fov(b) {
            Ok((Some(f), rest)) => Ok((f, rest)),
            Ok((None, _)) => Err(Error::IOError(IoFault::UnknownFovTag)),
            Err(e) => Err(e),
        }
    }

    proof fn lemma_round_trip(v: FovModel, rest: Seq<u8>) {
        let tag = u8::enc(fov_tag(v));
        let block = wire::enc_block(fov_payload(v), 4);
        assert(tag + block + rest =~= tag + (block + rest));
        u8::lemma_round_trip(fov_tag(v), block + rest);
        bytes::lemma_pow256();
        wire::lemma_block_round_trip(fov_payload(v), 4, rest);
        lemma_fov_payload(v);
    }
}

/// The bytes of a value.
fn write_to_vec<T: KeteWrite>(val: &T) -> (buf: Vec<u8>)
    ensures
        buf@ == T::enc(val.wire()),
{
    let mut buf: Vec<u8> = Vec::new();
    let _ = val.write_to(&mut buf);
    assert(buf@ =~= T::enc(val.wire()));
    buf
}

impl KeteWrite for FOV {
    fn write_to(&self, w: &mut Vec<u8>) -> KeteResult<()> {
        let ghost start = w@;
        let (tag, payload): (u8, Vec<u8>) = match self {
            FOV::OmniDirectional(f) => (0, write_to_vec(f)),
            FOV::GenericCone(f) => (1, write_to_vec(f)),
            FOV::GenericRectangle(f) => (2, write_to_vec(f)),
            FOV::Wise(f) => (3, write_to_vec(f)),
            FOV::NeosCmos(f) => (4, write_to_vec(f)),
            FOV::NeosVisit(f) => (5, write_to_vec(f)),
            FOV::ZtfCcdQuad(f) => (6, write_to_vec(f)),
            FOV::ZtfField(f) => (7, write_to_vec(f)),
            FOV::PtfCcd(f) => (8, write_to_vec(f)),
            FOV::PtfField(f) => (9, write_to_vec(f)),
            FOV::SpherexCmos(f) => (10, write_to_vec(f)),
            FOV::SpherexField(f) => (11, write_to_vec(f)),
            FOV::Spitzer(f) => (12, write_to_vec(f)),
        };
        assert(payload@ == fov_payload(self.wire()));
        let _ = tag.write_to(w);
        wire::write_block(payload.as_slice(), 4, w);
        assert(w@ =~= start + (u8::enc(tag) + wire::enc_block(payload@, 4)));
        Ok(())
    }
}

/// Read a value of the bytes `payload` and forget the rest of them.
fn read_payload<T: KeteRead>(payload: &[u8]) -> (res: KeteResult<T>)
    ensures
        match T::dec(payload@) {
            Ok((v, _)) => res is Ok && res->Ok_0.wire() == v,
            Err(e) => res == Err::<T, Error>(e),
        },
{
    let mut r = Reader::new(payload);
    T::read_from(&mut r)
}

/// Read what stands behind the tag and the length of a field of view.
fn read_fov_payload(tag: u8, payload: &[u8]) -> (res: KeteResult<Option<FOV>>)
    ensures
        match dec_fov(tag, payload@) {
            Ok(f) => res is Ok && res->Ok_0.wire() == f,
            Err(e) => res == Err::<Option<FOV>, Error>(e),
        },
{
    match tag {
        0 => match read_payload::<OmniDirectional>(payload) {
            Ok(f) => Ok(Some(FOV::OmniDirectional(f))),
            Err(e) => Err(e),
        },
        1 => match read_payload::<GenericCone>(payload) {
            Ok(f) => Ok(Some(FOV::GenericCone(f))),
            Err(e) => Err(e),
        },
        2 => match read_payload::<GenericRectangle>(payload) {
            Ok(f) => Ok(Some(FOV::GenericRectangle(f))),
            Err(e) => Err(e),
        },
        3 => match read_payload::<WiseCmos>(payload) {
            Ok(f) => Ok(Some(FOV::Wise(f))),
            Err(e) => Err(e),
        },
        4 => match read_payload::<NeosCmos>(payload) {
            Ok(f) => Ok(Some(FOV::NeosCmos(f))),
            Err(e) => Err(e),
        },
        5 => match read_payload::<NeosVisit>(payload) {
            Ok(f) => Ok(Some(FOV::NeosVisit(f))),
            Err(e) => Err(e),
        },
        6 => match read_payload::<ZtfCcdQuad>(payload) {
            Ok(f) => Ok(Some(FOV::ZtfCcdQuad(f))),
            Err(e) => Err(e),
        },
        7 => match read_payload::<ZtfField>(payload) {
            Ok(f) => Ok(Some(FOV::ZtfField(f))),
            Err(e) => Err(e),
        },
        8 => match read_payload::<PtfCcd>(payload) {
            Ok(f) => Ok(Some(FOV::PtfCcd(f))),
            Err(e) => Err(e),
        },
        9 => match read_payload::<PtfField>(payload) {
            Ok(f) => Ok(Some(FOV::PtfField(f))),
            Err(e) => Err(e),
        },
        10 => match read_payload::<SpherexCmos>(payload) {
            Ok(f) => Ok(Some(FOV::SpherexCmos(f))),
            Err(e) => Err(e),
        },
        11 => match read_payload::<SpherexField>(payload) {
            Ok(f) => Ok(Some(FOV::SpherexField(f))),
            Err(e) => Err(e),
        },
        12 => match read_payload::<SpitzerFrame>(payload) {
            Ok(f) => Ok(Some(FOV::Spitzer(f))),
            Err(e) => Err(e),
        },
        _ => Ok(None),
    }
}

/// Read a field of view. Where its tag is not known, move behind it and return `None`.
pub fn read_fov(r: &mut Reader<'_>) -> (res: KeteResult<Option<FOV>>)
    ensures
        match dec_tagged_fov(old(r)@) {
            Ok((f, rest)) => res is Ok && res->Ok_0.wire() == f && final(r)@ == rest,
            Err(e) => res == Err::<Option<FOV>, Error>(e),
        },
{
    match u8::read_from(r) {
        Ok(tag) => match wire::read_block(r, 4) {
            Ok(payload) => read_fov_payload(tag, payload),
            Err(e) => Err(e),
        },
        Err(e) => Err(e),
    }
}

impl KeteRead for FOV {
    fn read_from(r: &mut Reader<'_>) -> KeteResult<Self> {
        match read_fov(r) {
            Ok(Some(f)) => Ok(f),
            Ok(None) => Err(Error::IOError(IoFault::UnknownFovTag)),
            Err(e) => Err(e),
        }
    }
}

/// The observer of a field of view is kept in the file.
pub proof fn lemma_observer_kept(f: FOV)
    ensures
        fov_observer(f.wire()) == f.seen_by().wire(),
{
}

/// A field of view of a kind that is not known is skipped: whatever its bytes are,
/// reading goes on right behind them.
pub proof fn law_unknown_fov_skipped(tag: u8, payload: Seq<u8>, rest: Seq<u8>)
    requires
        tag > 12,
        payload.len() < 0x1_0000_0000,
    ensures
        dec_tagged_fov(u8::enc(tag) + wire::enc_block(payload, 4) + rest) == Ok::<
            (Option<FovModel>, Seq<u8>),
            Error,
        >((None, rest)),
{
    let block = wire::enc_block(payload, 4);
    assert(u8::enc(tag) + block + rest =~= u8::enc(tag) + (block + rest));
    u8::lemma_round_trip(tag, block + rest);
    bytes::lemma_pow256();
    wire::lemma_block_round_trip(payload, 4, rest);
}

} // verus!
