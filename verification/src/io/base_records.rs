//! The format of vectors, times, designations and states.
use crate::desig::{Desig, DesigModel};
use crate::errors::{Error, IoFault, KeteResult};
use crate::float::F64;
use crate::frames::{DynCenter, Equatorial, Vector};
use crate::io::bytes;
use crate::io::reader::Reader;
use crate::io::wire;
use crate::io::wire::{KeteRead, KeteWrite, Wire};
use crate::state::State;
use crate::time::Time;
use vstd::prelude::*;

verus! {

/// The components of a vector in the order of the file.
pub type VectorFields = (F64, (F64, F64));

impl Wire for Vector<Equatorial> {
    type V = <VectorFields as Wire>::V;

    open spec fn wire(&self) -> Self::V {
        (self.x, (self.y, self.z))
    }

    open spec fn enc(v: Self::V) -> Seq<u8> {
        <VectorFields as Wire>::enc(v)
    }

    open spec fn fits(v: Self::V) -> bool {
        <VectorFields as Wire>::fits(v)
    }

    open spec fn dec(b: Seq<u8>) -> KeteResult<(Self::V, Seq<u8>)> {
        <VectorFields as Wire>::dec(b)
    }

    proof fn lemma_round_trip(v: Self::V, rest: Seq<u8>) {
        <VectorFields as Wire>::lemma_round_trip(v, rest);
    }
}

impl KeteWrite for Vector<Equatorial> {
    fn write_to(&self, w: &mut Vec<u8>) -> KeteResult<()> {
        (self.x, (self.y, self.z)).write_to(w)
    }
}

impl KeteRead for Vector<Equatorial> {
    fn read_from(r: &mut Reader<'_>) -> KeteResult<Self> {
        match <VectorFields>::read_from(r) {
            Ok((x, (y, z))) => Ok(Vector::of(x, y, z)),
            Err(e) => Err(e),
        }
    }
}

impl Wire for Time {
    type V = F64;

    open spec fn wire(&self) -> F64 {
        self.jd
    }

    open spec fn enc(v: F64) -> Seq<u8> {
        F64::enc(v)
    }

    open spec fn fits(v: F64) -> bool {
        true
    }

    open spec fn dec(b: Seq<u8>) -> KeteResult<(F64, Seq<u8>)> {
        F64::dec(b)
    }

    proof fn lemma_round_trip(v: F64, rest: Seq<u8>) {
        F64::lemma_round_trip(v, rest);
    }
}

impl KeteWrite for Time {
    fn write_to(&self, w: &mut Vec<u8>) -> KeteResult<()> {
        self.jd.write_to(w)
    }
}

impl KeteRead for Time {
    fn read_from(r: &mut Reader<'_>) -> KeteResult<Self> {
        match F64::read_from(r) {
            Ok(jd) => Ok(Time::new(jd)),
            Err(e) => Err(e),
        }
    }
}

/// The number, orbit type and fragment of a numbered comet.
pub type CometPermFields = (char, (u32, Option<char>));

/// The orbit type, designation and fragment of a comet without number.
pub type CometProvFields = (Option<char>, (String, Option<char>));

/// The tag of each kind of designation.
pub open spec fn desig_tag(v: DesigModel) -> u8 {
    match v {
        DesigModel::Empty => 0,
        DesigModel::Perm(_) => 1,
        DesigModel::Prov(_) => 2,
        DesigModel::CometPerm(_, _, _) => 3,
        DesigModel::CometProv(_, _, _) => 4,
        DesigModel::PlanetSat(_, _) => 5,
        DesigModel::Name(_) => 6,
        DesigModel::Naif(_) => 7,
        DesigModel::ObservatoryCode(_) => 8,
    }
}

/// The bytes behind the tag and the length of a designation.
pub open spec fn desig_payload(v: DesigModel) -> Seq<u8> {
    match v {
        DesigModel::Empty => Seq::empty(),
        DesigModel::Perm(n) => u32::enc(n),
        DesigModel::Prov(s) => String::enc(s),
        DesigModel::CometPerm(kind, n, fragment) => <CometPermFields as Wire>::enc(
            (kind, (n, fragment)),
        ),
        DesigModel::CometProv(kind, s, fragment) => <CometProvFields as Wire>::enc(
            (kind, (s, fragment)),
        ),
        DesigModel::PlanetSat(planet, n) => <(i32, u32) as Wire>::enc((planet, n)),
        DesigModel::Name(s) => String::enc(s),
        DesigModel::Naif(id) => i32::enc(id),
        DesigModel::ObservatoryCode(s) => String::enc(s),
    }
}

/// Do the texts of a designation fit.
pub open spec fn desig_texts_fit(v: DesigModel) -> bool {
    match v {
        DesigModel::Prov(s) => wire::text_fits(s),
        DesigModel::CometProv(_, s, _) => wire::text_fits(s),
        DesigModel::Name(s) => wire::text_fits(s),
        DesigModel::ObservatoryCode(s) => wire::text_fits(s),
        _ => true,
    }
}

/// The designation with this tag and these bytes. Bytes left over do not matter.
pub open spec fn dec_desig(tag: u8, b: Seq<u8>) -> KeteResult<DesigModel> {
    if tag == 0 {
        Ok(DesigModel::Empty)
    } else if tag == 1 {
        match u32::dec(b) {
            Ok((n, _)) => Ok(DesigModel::Perm(n)),
            Err(e) => Err(e),
        }
    } else if tag == 2 {
        match String::dec(b) {
            Ok((s, _)) => Ok(DesigModel::Prov(s)),
            Err(e) => Err(e),
        }
    } else if tag == 3 {
        match <CometPermFields as Wire>::dec(b) {
            Ok(((kind, (n, fragment)), _)) => Ok(DesigModel::CometPerm(kind, n, fragment)),
            Err(e) => Err(e),
        }
    } else if tag == 4 {
        match <CometProvFields as Wire>::dec(b) {
            Ok(((kind, (s, fragment)), _)) => Ok(DesigModel::CometProv(kind, s, fragment)),
            Err(e) => Err(e),
        }
    } else if tag == 5 {
        match <(i32, u32) as Wire>::dec(b) {
            Ok(((planet, n), _)) => Ok(DesigModel::PlanetSat(planet, n)),
            Err(e) => Err(e),
        }
    } else if tag == 6 {
        match String::dec(b) {
            Ok((s, _)) => Ok(DesigModel::Name(s)),
            Err(e) => Err(e),
        }
    } else if tag == 7 {
        match i32::dec(b) {
            Ok((id, _)) => Ok(DesigModel::Naif(id)),
            Err(e) => Err(e),
        }
    } else if tag == 8 {
        match String::dec(b) {
            Ok((s, _)) => Ok(DesigModel::ObservatoryCode(s)),
            Err(e) => Err(e),
        }
    } else {
        Err(Error::IOError(IoFault::UnknownDesigTag(tag)))
    }
}

/// A tag and a payload give back the designation which they were written for.
proof fn lemma_desig_payload(v: DesigModel)
    requires
        desig_texts_fit(v),
    ensures
        dec_desig(desig_tag(v), desig_payload(v)) == Ok::<DesigModel, Error>(v),
{
    let end = Seq::<u8>::empty();
    assert(desig_payload(v) + end =~= desig_payload(v));
    match v {
        DesigModel::Empty => {},
        DesigModel::Perm(n) => u32::lemma_round_trip(n, end),
        DesigModel::Prov(s) => String::lemma_round_trip(s, end),
        DesigModel::CometPerm(kind, n, fragment) => <CometPermFields as Wire>::lemma_round_trip(
            (kind, (n, fragment)),
            end,
        ),
        DesigModel::CometProv(kind, s, fragment) => <CometProvFields as Wire>::lemma_round_trip(
            (kind, (s, fragment)),
            end,
        ),
        DesigModel::PlanetSat(planet, n) => <(i32, u32) as Wire>::lemma_round_trip((planet, n),
            end),
        DesigModel::Name(s) => String::lemma_round_trip(s, end),
        DesigModel::Naif(id) => i32::lemma_round_trip(id, end),
        DesigModel::ObservatoryCode(s) => String::lemma_round_trip(s, end),
    }
}

impl Wire for Desig {
    type V = DesigModel;

    open spec fn wire(&self) -> DesigModel {
        self@
    }

    open spec fn enc(v: DesigModel) -> Seq<u8> {
        u8::enc(desig_tag(v)) + wire::enc_block(desig_payload(v), 1)
    }

    open spec fn fits(v: DesigModel) -> bool {
        desig_texts_fit(v) && desig_payload(v).len() < 0x100
    }

    open spec fn dec(b: Seq<u8>) -> KeteResult<(DesigModel, Seq<u8>)> {
        match u8::dec(b) {
            Ok((tag, rest)) => match wire::dec_block(rest, 1) {
                Ok((payload, rest)) => match dec_desig(tag, payload) {
                    Ok(v) => Ok((v, rest)),
                    Err(e) => Err(e),
                },
                Err(e) => Err(e),
            },
            Err(e) => Err(e),
        }
    }

    proof fn lemma_round_trip(v: DesigModel, rest: Seq<u8>) {
        let tag = u8::enc(desig_tag(v));
        let block = wire::enc_block(desig_payload(v), 1);
        assert(tag + block + rest =~= tag + (block + rest));
        u8::lemma_round_trip(desig_tag(v), block + rest);
        bytes::lemma_pow256();
        wire::lemma_block_round_trip(desig_payload(v), 1, rest);
        lemma_desig_payload(v);
    }
}

impl KeteWrite for Desig {
    fn write_to(&self, w: &mut Vec<u8>) -> KeteResult<()> {
        let ghost start = w@;
        let mut payload: Vec<u8> = Vec::new();
        let tag: u8 = match self {
            Desig::Empty => 0,
            Desig::Perm(n) => {
                let _ = n.write_to(&mut payload);
                1
            },
            Desig::Prov(s) => {
                let _ = s.as_str().write_to(&mut payload);
                2
            },
            Desig::CometPerm(kind, n, fragment) => {
                let _ = kind.write_to(&mut payload);
                let _ = n.write_to(&mut payload);
                let _ = fragment.write_to(&mut payload);
                3
            },
            Desig::CometProv(kind, s, fragment) => {
                let _ = kind.write_to(&mut payload);
                let _ = s.as_str().write_to(&mut payload);
                let _ = fragment.write_to(&mut payload);
                4
            },
            Desig::PlanetSat(planet, n) => {
                let _ = planet.write_to(&mut payload);
                let _ = n.write_to(&mut payload);
                5
            },
            Desig::Name(s) => {
                let _ = s.as_str().write_to(&mut payload);
                6
            },
            Desig::Naif(id) => {
                let _ = id.write_to(&mut payload);
                7
            },
            Desig::ObservatoryCode(s) => {
                let _ = s.as_str().write_to(&mut payload);
                8
            },
        };
        assert(payload@ =~= desig_payload(self@));
        let _ = tag.write_to(w);
        wire::write_block(payload.as_slice(), 1, w);
        assert(w@ =~= start + Self::enc(self.wire()));
        Ok(())
    }
}

/// Read what stands behind the tag and the length of a designation.
fn read_desig(tag: u8, payload: &[u8]) -> (res: KeteResult<Desig>)
    ensures
        match dec_desig(tag, payload@) {
            Ok(v) => res is Ok && res->Ok_0@ == v,
            Err(e) => res == Err::<Desig, Error>(e),
        },
{
    let mut reader = Reader::new(payload);
    let r = &mut reader;
    match tag {
        0 => Ok(Desig::Empty),
        1 => match u32::read_from(r) {
            Ok(n) => Ok(Desig::Perm(n)),
            Err(e) => Err(e),
        },
        2 => match String::read_from(r) {
            Ok(s) => Ok(Desig::Prov(s)),
            Err(e) => Err(e),
        },
        3 => match char::read_from(r) {
            Ok(kind) => match u32::read_from(r) {
                Ok(n) => match Option::<char>::read_from(r) {
                    Ok(fragment) => Ok(Desig::CometPerm(kind, n, fragment)),
                    Err(e) => Err(e),
                },
                Err(e) => Err(e),
            },
            Err(e) => Err(e),
        },
        4 => match Option::<char>::read_from(r) {
            Ok(kind) => match String::read_from(r) {
                Ok(s) => match Option::<char>::read_from(r) {
                    Ok(fragment) => Ok(Desig::CometProv(kind, s, fragment)),
                    Err(e) => Err(e),
                },
                Err(e) => Err(e),
            },
            Err(e) => Err(e),
        },
        5 => match i32::read_from(r) {
            Ok(planet) => match u32::read_from(r) {
                Ok(n) => Ok(Desig::PlanetSat(planet, n)),
                Err(e) => Err(e),
            },
            Err(e) => Err(e),
        },
        6 => match String::read_from(r) {
            Ok(s) => Ok(Desig::Name(s)),
            Err(e) => Err(e),
        },
        7 => match i32::read_from(r) {
            Ok(id) => Ok(Desig::Naif(id)),
            Err(e) => Err(e),
        },
        8 => match String::read_from(r) {
            Ok(s) => Ok(Desig::ObservatoryCode(s)),
            Err(e) => Err(e),
        },
        t => Err(Error::IOError(IoFault::UnknownDesigTag(t))),
    }
}

impl KeteRead for Desig {
    fn read_from(r: &mut Reader<'_>) -> KeteResult<Self> {
        match u8::read_from(r) {
            Ok(tag) => match wire::read_block(r, 1) {
                Ok(payload) => read_desig(tag, payload),
                Err(e) => Err(e),
            },
            Err(e) => Err(e),
        }
    }
}

/// The fields of a state in the order of the file, the last of them the id of the
/// center.
pub type StateFields = (Desig, (Time, (Vector<Equatorial>, (Vector<Equatorial>, i32))));

impl Wire for State<Equatorial> {
    type V = <StateFields as Wire>::V;

    open spec fn wire(&self) -> Self::V {
        (self.desig.wire(), (self.epoch.wire(), (self.pos.wire(), (self.vel.wire(),
            self.center.0))))
    }

    open spec fn enc(v: Self::V) -> Seq<u8> {
        <StateFields as Wire>::enc(v)
    }

    open spec fn fits(v: Self::V) -> bool {
        <StateFields as Wire>::fits(v)
    }

    open spec fn dec(b: Seq<u8>) -> KeteResult<(Self::V, Seq<u8>)> {
        <StateFields as Wire>::dec(b)
    }

    proof fn lemma_round_trip(v: Self::V, rest: Seq<u8>) {
        <StateFields as Wire>::lemma_round_trip(v, rest);
    }
}

impl KeteWrite for State<Equatorial> {
    fn write_to(&self, w: &mut Vec<u8>) -> KeteResult<()> {
        (&self.desig, (self.epoch, (self.pos, (self.vel, self.center_id())))).write_to(w)
    }
}

impl KeteRead for State<Equatorial> {
    fn read_from(r: &mut Reader<'_>) -> KeteResult<Self> {
        match <StateFields>::read_from(r) {
            Ok((desig, (epoch, (pos, (vel, center_id))))) => Ok(
                State::new(desig, epoch, pos, vel, DynCenter(center_id)),
            ),
            Err(e) => Err(e),
        }
    }
}

} // verus!
